//! The record document format: a JSON value tree, a deterministic renderer,
//! and a parser. The renderer writes one member or element per line; the
//! parser accepts any whitespace, any member order, and the usual escapes.
//! `json_laws` proves that parsing a rendered tree gives the tree back.
use vstd::prelude::*;

verus! {

broadcast use vstd::std_specs::vec::group_vec_axioms;

/// The mathematical JSON tree the contracts speak about.
pub enum JsonV {
    Null,
    Bool(bool),
    Num(Seq<char>),
    Str(Seq<char>),
    Arr(Seq<JsonV>),
    Obj(Seq<(Seq<char>, JsonV)>),
}

/// The executable JSON tree.
pub enum Json {
    Null,
    Bool(bool),
    Num(Vec<char>),
    Str(Vec<char>),
    Arr(Vec<Json>),
    Obj(Vec<(Vec<char>, Json)>),
}

/// The view of an executable tree.
pub open spec fn json_view(j: Json) -> JsonV
    decreases j, 1int,
{
    match j {
        Json::Null => JsonV::Null,
        Json::Bool(b) => JsonV::Bool(b),
        Json::Num(s) => JsonV::Num(s@),
        Json::Str(s) => JsonV::Str(s@),
        Json::Arr(items) => JsonV::Arr(json_view_list(items@)),
        Json::Obj(members) => JsonV::Obj(json_view_obj(members@)),
    }
}

pub open spec fn json_view_list(items: Seq<Json>) -> Seq<JsonV>
    decreases items, 0int,
{
    if items.len() == 0 {
        Seq::empty()
    } else {
        seq![json_view(items[0])] + json_view_list(items.drop_first())
    }
}

pub open spec fn json_view_obj(members: Seq<(Vec<char>, Json)>) -> Seq<(Seq<char>, JsonV)>
    decreases members, 0int,
{
    if members.len() == 0 {
        Seq::empty()
    } else {
        seq![(members[0].0@, json_view(members[0].1))] + json_view_obj(members.drop_first())
    }
}

/// Pointwise reading of a viewed element list.
pub proof fn lemma_json_view_list(items: Seq<Json>)
    ensures
        json_view_list(items).len() == items.len(),
        forall|i: int|
            0 <= i < items.len() ==> #[trigger] json_view_list(items)[i] == json_view(items[i]),
    decreases items,
{
    if items.len() > 0 {
        lemma_json_view_list(items.drop_first());
    }
}

/// Pointwise reading of a viewed member list.
pub proof fn lemma_json_view_obj(members: Seq<(Vec<char>, Json)>)
    ensures
        json_view_obj(members).len() == members.len(),
        forall|i: int|
            0 <= i < members.len() ==> #[trigger] json_view_obj(members)[i] == (
            members[i].0@,
            json_view(members[i].1),
            ),
    decreases members,
{
    if members.len() > 0 {
        lemma_json_view_obj(members.drop_first());
    }
}

/// Viewing commutes with appending one element.
pub proof fn lemma_json_view_list_snoc(all: Seq<Json>)
    requires
        all.len() > 0,
    ensures
        json_view_list(all) == json_view_list(all.drop_last()).push(json_view(all.last())),
{
    let prev = all.drop_last();
    lemma_json_view_list(all);
    lemma_json_view_list(prev);
    assert forall|k: int| 0 <= k < all.len() implies json_view_list(all)[k] == json_view_list(
        prev,
    ).push(json_view(all.last()))[k] by {
        assert(json_view_list(all)[k] == json_view(all[k]));
        if k < all.len() - 1 {
            assert(prev[k] == all[k]);
            assert(json_view_list(prev)[k] == json_view(prev[k]));
        }
    }
    assert(json_view_list(all) =~= json_view_list(prev).push(json_view(all.last())));
}

impl View for Json {
    type V = JsonV;

    open spec fn view(&self) -> JsonV {
        json_view(*self)
    }
}

// ------------------------------------------------------------------
// Rendering
// ------------------------------------------------------------------
/// Hexadecimal digit, lower case.
pub open spec fn hex_digit(d: nat) -> char {
    if d < 10 {
        crate::chars::digit_char(d)
    } else if d == 10 {
        'a'
    } else if d == 11 {
        'b'
    } else if d == 12 {
        'c'
    } else if d == 13 {
        'd'
    } else if d == 14 {
        'e'
    } else {
        'f'
    }
}

/// How one character appears inside a rendered string literal: quotes and
/// backslashes get a two-character escape, control characters a `\u00XX`
/// escape, and everything else stands as itself.
pub open spec fn escape_char(c: char) -> Seq<char> {
    if c == '"' {
        seq!['\\', '"']
    } else if c == '\\' {
        seq!['\\', '\\']
    } else if (c as u32) < 32 {
        seq!['\\', 'u', '0', '0', hex_digit(((c as u32) / 16) as nat), hex_digit(
            ((c as u32) % 16) as nat,
        )]
    } else {
        seq![c]
    }
}

pub open spec fn escape_string(s: Seq<char>) -> Seq<char>
    decreases s.len(),
{
    if s.len() == 0 {
        Seq::empty()
    } else {
        escape_char(s[0]) + escape_string(s.drop_first())
    }
}

/// A rendered string literal, quotes included.
pub open spec fn render_string(s: Seq<char>) -> Seq<char> {
    seq!['"'] + escape_string(s) + seq!['"']
}

/// The rendered text of a value. Arrays and objects put each element on a
/// line of its own; an empty one is a bare bracket pair.
pub open spec fn render(j: JsonV) -> Seq<char>
    decreases j, 1int,
{
    match j {
        JsonV::Null => "null"@,
        JsonV::Bool(b) => if b {
            "true"@
        } else {
            "false"@
        },
        JsonV::Num(s) => s,
        JsonV::Str(s) => render_string(s),
        JsonV::Arr(items) => if items.len() == 0 {
            "[]"@
        } else {
            seq!['[', '\n'] + render_items(items) + seq!['\n', ']']
        },
        JsonV::Obj(members) => if members.len() == 0 {
            "{}"@
        } else {
            seq!['{', '\n'] + render_members(members) + seq!['\n', '}']
        },
    }
}

pub open spec fn render_items(items: Seq<JsonV>) -> Seq<char>
    recommends
        items.len() > 0,
    decreases items, 0int,
{
    if items.len() == 0 {
        Seq::empty()
    } else if items.len() == 1 {
        render(items[0])
    } else {
        render(items[0]) + seq![',', '\n'] + render_items(items.drop_first())
    }
}

pub open spec fn render_members(members: Seq<(Seq<char>, JsonV)>) -> Seq<char>
    recommends
        members.len() > 0,
    decreases members, 0int,
{
    if members.len() == 0 {
        Seq::empty()
    } else if members.len() == 1 {
        render_string(members[0].0) + seq![':', ' '] + render(members[0].1)
    } else {
        render_string(members[0].0) + seq![':', ' '] + render(members[0].1) + seq![',', '\n']
            + render_members(members.drop_first())
    }
}

// ------------------------------------------------------------------
// Parsing
// ------------------------------------------------------------------
pub open spec fn is_ws(c: char) -> bool {
    c == ' ' || c == '\n' || c == '\t' || c == '\r'
}

/// First position at or after `i` holding a non-whitespace character.
pub open spec fn skip_ws(s: Seq<char>, i: int) -> int
    decreases s.len() - i,
{
    if 0 <= i < s.len() && is_ws(s[i]) {
        skip_ws(s, i + 1)
    } else {
        i
    }
}

/// `x` forced into the range `lo ..= s.len()`. The parser applies it to
/// every position a sub-parse returns, so that positions advance by
/// construction; an honest sub-parse is never actually clamped.
pub open spec fn bounded(s: Seq<char>, lo: int, x: int) -> int {
    if x < lo {
        lo
    } else if x > s.len() {
        s.len() as int
    } else {
        x
    }
}

pub open spec fn is_hex_char(c: char) -> bool {
    crate::chars::digit_val(c) < 10 || c == 'a' || c == 'b' || c == 'c' || c == 'd' || c == 'e'
        || c == 'f' || c == 'A' || c == 'B' || c == 'C' || c == 'D' || c == 'E' || c == 'F'
}

pub open spec fn hex_val(c: char) -> nat {
    if crate::chars::digit_val(c) < 10 {
        crate::chars::digit_val(c)
    } else if c == 'a' || c == 'A' {
        10
    } else if c == 'b' || c == 'B' {
        11
    } else if c == 'c' || c == 'C' {
        12
    } else if c == 'd' || c == 'D' {
        13
    } else if c == 'e' || c == 'E' {
        14
    } else {
        15
    }
}

/// The character a two-character escape stands for, if the letter is one of
/// the eight short escapes.
pub open spec fn unescape_char(e: char) -> Option<char> {
    if e == '"' {
        Some('"')
    } else if e == '\\' {
        Some('\\')
    } else if e == '/' {
        Some('/')
    } else if e == 'b' {
        Some(8u32 as char)
    } else if e == 'f' {
        Some(12u32 as char)
    } else if e == 'n' {
        Some('\n')
    } else if e == 'r' {
        Some('\r')
    } else if e == 't' {
        Some('\t')
    } else {
        None
    }
}

pub open spec fn is_scalar_u32(v: u32) -> bool {
    v < 0xD800 || (0xE000 <= v && v < 0x110000)
}

/// Parse the inside of a string literal starting at `i` (just after the
/// opening quote); yields the unescaped text and the position after the
/// closing quote.
pub open spec fn parse_string_body(s: Seq<char>, i: int) -> Option<(Seq<char>, int)>
    decreases s.len() - i,
{
    if i < 0 || i >= s.len() {
        None
    } else if s[i] == '"' {
        Some((Seq::empty(), i + 1))
    } else if s[i] == '\\' {
        if i + 2 > s.len() {
            None
        } else if s[i + 1] == 'u' {
            if i + 6 <= s.len() && is_hex_char(s[i + 2]) && is_hex_char(s[i + 3]) && is_hex_char(
                s[i + 4],
            ) && is_hex_char(s[i + 5]) {
                let v = hex_val(s[i + 2]) * 4096 + hex_val(s[i + 3]) * 256 + hex_val(s[i + 4]) * 16
                    + hex_val(s[i + 5]);
                if is_scalar_u32(v as u32) {
                    match parse_string_body(s, i + 6) {
                        Some((t, e)) => Some((seq![(v as u32) as char] + t, e)),
                        None => None,
                    }
                } else {
                    None
                }
            } else {
                None
            }
        } else {
            match unescape_char(s[i + 1]) {
                Some(c) => match parse_string_body(s, i + 2) {
                    Some((t, e)) => Some((seq![c] + t, e)),
                    None => None,
                },
                None => None,
            }
        }
    } else {
        match parse_string_body(s, i + 1) {
            Some((t, e)) => Some((seq![s[i]] + t, e)),
            None => None,
        }
    }
}

pub open spec fn is_num_char(c: char) -> bool {
    crate::chars::digit_val(c) < 10 || c == '-' || c == '+' || c == '.' || c == 'e' || c == 'E'
}

/// Consume a maximal run of number characters starting at `i`.
pub open spec fn parse_num_body(s: Seq<char>, i: int) -> (Seq<char>, int)
    decreases s.len() - i,
{
    if 0 <= i < s.len() && is_num_char(s[i]) {
        let (t, e) = parse_num_body(s, i + 1);
        (seq![s[i]] + t, e)
    } else {
        (Seq::empty(), i)
    }
}

/// Whether the literal `w` stands at position `i`.
pub open spec fn lit_at(s: Seq<char>, i: int, w: Seq<char>) -> bool {
    i + w.len() <= s.len() && s.subrange(i, i + w.len()) == w
}

/// Parse one value starting at `i`, leading whitespace allowed.
pub open spec fn parse_value(s: Seq<char>, i: int) -> Option<(JsonV, int)>
    decreases s.len() - bounded(s, i, skip_ws(s, i)), 0int,
{
    let j = bounded(s, i, skip_ws(s, i));
    if j >= s.len() {
        None
    } else if s[j] == 'n' {
        if lit_at(s, j, "null"@) {
            Some((JsonV::Null, j + 4))
        } else {
            None
        }
    } else if s[j] == 't' {
        if lit_at(s, j, "true"@) {
            Some((JsonV::Bool(true), j + 4))
        } else {
            None
        }
    } else if s[j] == 'f' {
        if lit_at(s, j, "false"@) {
            Some((JsonV::Bool(false), j + 5))
        } else {
            None
        }
    } else if s[j] == '"' {
        match parse_string_body(s, j + 1) {
            Some((t, e)) => Some((JsonV::Str(t), e)),
            None => None,
        }
    } else if s[j] == '[' {
        let k = bounded(s, j + 1, skip_ws(s, j + 1));
        if k < s.len() && s[k] == ']' {
            Some((JsonV::Arr(Seq::empty()), k + 1))
        } else {
            match parse_items(s, j + 1) {
                Some((items, e)) => Some((JsonV::Arr(items), e)),
                None => None,
            }
        }
    } else if s[j] == '{' {
        let k = bounded(s, j + 1, skip_ws(s, j + 1));
        if k < s.len() && s[k] == '}' {
            Some((JsonV::Obj(Seq::empty()), k + 1))
        } else {
            match parse_members(s, j + 1) {
                Some((members, e)) => Some((JsonV::Obj(members), e)),
                None => None,
            }
        }
    } else if is_num_char(s[j]) {
        let (t, e) = parse_num_body(s, j);
        Some((JsonV::Num(t), e))
    } else {
        None
    }
}

/// Parse the elements of a non-empty array, starting after the opening
/// bracket; yields the elements and the position after the closing bracket.
pub open spec fn parse_items(s: Seq<char>, i: int) -> Option<(Seq<JsonV>, int)>
    decreases s.len() - bounded(s, i, skip_ws(s, i)), 1int,
{
    match parse_value(s, i) {
        None => None,
        Some((v, e0)) => {
            let e = bounded(s, bounded(s, i, skip_ws(s, i)) + 1, e0);
            let k = bounded(s, e, skip_ws(s, e));
            if k >= s.len() {
                None
            } else if s[k] == ']' {
                Some((seq![v], k + 1))
            } else if s[k] == ',' {
                match parse_items(s, k + 1) {
                    Some((rest, e2)) => Some((seq![v] + rest, e2)),
                    None => None,
                }
            } else {
                None
            }
        },
    }
}

/// Parse the members of a non-empty object, starting after the opening
/// brace; yields the members and the position after the closing brace.
pub open spec fn parse_members(s: Seq<char>, i: int) -> Option<(Seq<(Seq<char>, JsonV)>, int)>
    decreases s.len() - bounded(s, i, skip_ws(s, i)), 1int,
{
    let k = bounded(s, i, skip_ws(s, i));
    if k >= s.len() || s[k] != '"' {
        None
    } else {
        match parse_string_body(s, k + 1) {
            None => None,
            Some((key, e1)) => {
                let c = bounded(s, bounded(s, k + 2, e1), skip_ws(s, bounded(s, k + 2, e1)));
                if c >= s.len() || s[c] != ':' {
                    None
                } else {
                    match parse_value(s, c + 1) {
                        None => None,
                        Some((v, e2)) => {
                            let e = bounded(s, c + 2, e2);
                            let t = bounded(s, e, skip_ws(s, e));
                            if t >= s.len() {
                                None
                            } else if s[t] == '}' {
                                Some((seq![(key, v)], t + 1))
                            } else if s[t] == ',' {
                                match parse_members(s, t + 1) {
                                    Some((rest, e3)) => Some((seq![(key, v)] + rest, e3)),
                                    None => None,
                                }
                            } else {
                                None
                            }
                        },
                    }
                }
            },
        }
    }
}

/// The value a whole text stands for: one value, with whitespace around it,
/// and nothing else.
pub open spec fn json_of(s: Seq<char>) -> Option<JsonV> {
    match parse_value(s, 0) {
        None => None,
        Some((v, e)) => {
            let t = bounded(s, e, skip_ws(s, e));
            if t == s.len() {
                Some(v)
            } else {
                None
            }
        },
    }
}

/// Positions only ever move forward, and stay inside the text.
pub proof fn lemma_skip_ws_bounds(s: Seq<char>, i: int)
    requires
        0 <= i <= s.len(),
    ensures
        i <= skip_ws(s, i) <= s.len(),
    decreases s.len() - i,
{
    if i < s.len() && is_ws(s[i]) {
        lemma_skip_ws_bounds(s, i + 1);
    }
}

// ------------------------------------------------------------------
// Executable parsing
// ------------------------------------------------------------------
fn is_ws_x(c: char) -> (r: bool)
    ensures
        r == is_ws(c),
{
    c == ' ' || c == '\n' || c == '\t' || c == '\r'
}

fn skip_ws_x(s: &Vec<char>, i: usize) -> (r: usize)
    requires
        i <= s@.len(),
    ensures
        r as int == skip_ws(s@, i as int),
        i <= r <= s@.len(),
        r < s@.len() ==> !is_ws(s@[r as int]),
{
    let mut j = i;
    while j < s.len() && is_ws_x(s[j])
        invariant
            i <= j <= s@.len(),
            skip_ws(s@, i as int) == skip_ws(s@, j as int),
        decreases s@.len() - j,
    {
        j = j + 1;
    }
    j
}

fn is_hex_char_x(c: char) -> (r: bool)
    ensures
        r == is_hex_char(c),
{
    ('0' <= c && c <= '9') || ('a' <= c && c <= 'f') || ('A' <= c && c <= 'F')
}

fn hex_val_x(c: char) -> (v: u32)
    requires
        is_hex_char(c),
    ensures
        v == hex_val(c),
        v < 16,
{
    match c {
        '0' => 0,
        '1' => 1,
        '2' => 2,
        '3' => 3,
        '4' => 4,
        '5' => 5,
        '6' => 6,
        '7' => 7,
        '8' => 8,
        '9' => 9,
        'a' => 10,
        'A' => 10,
        'b' => 11,
        'B' => 11,
        'c' => 12,
        'C' => 12,
        'd' => 13,
        'D' => 13,
        'e' => 14,
        'E' => 14,
        _ => 15,
    }
}

/// Relies on `char::from_u32`: it returns the character for exactly the
/// Unicode scalar values, and `None` for surrogates and out-of-range codes.
#[verifier::external_body]
fn char_from_u32_x(v: u32) -> (r: Option<char>)
    ensures
        r is Some <==> is_scalar_u32(v),
        r matches Some(c) ==> c as u32 == v,
{
    char::from_u32(v)
}

fn unescape_char_x(e: char) -> (r: Option<char>)
    ensures
        r == unescape_char(e),
{
    match e {
        '"' => Some('"'),
        '\\' => Some('\\'),
        '/' => Some('/'),
        'b' => {
            proof {
                assert('\u{8}' as u32 == 8);
                vstd::utf8::char_u32_cast('\u{8}', 8u32);
            }
            Some('\u{8}')
        },
        'f' => {
            proof {
                assert('\u{c}' as u32 == 12);
                vstd::utf8::char_u32_cast('\u{c}', 12u32);
            }
            Some('\u{c}')
        },
        'n' => Some('\n'),
        'r' => Some('\r'),
        't' => Some('\t'),
        _ => None,
    }
}

fn parse_string_body_x(s: &Vec<char>, i: usize) -> (r: Option<(Vec<char>, usize)>)
    requires
        i <= s@.len(),
    ensures
        match r {
            Some((t, e)) => parse_string_body(s@, i as int) == Some((t@, e as int)) && i < e
                <= s@.len(),
            None => parse_string_body(s@, i as int) is None,
        },
    decreases s@.len() - i,
{
    if i >= s.len() {
        return None;
    }
    let c = s[i];
    if c == '"' {
        let t: Vec<char> = Vec::new();
        proof {
            assert(t@ =~= Seq::<char>::empty());
        }
        Some((t, i + 1))
    } else if c == '\\' {
        if s.len() - i < 2 {
            return None;
        }
        let e1 = s[i + 1];
        if e1 == 'u' {
            if s.len() - i >= 6 && is_hex_char_x(s[i + 2]) && is_hex_char_x(s[i + 3])
                && is_hex_char_x(s[i + 4]) && is_hex_char_x(s[i + 5]) {
                let v: u32 = hex_val_x(s[i + 2]) * 4096 + hex_val_x(s[i + 3]) * 256 + hex_val_x(
                    s[i + 4],
                ) * 16 + hex_val_x(s[i + 5]);
                match char_from_u32_x(v) {
                    Some(uc) => {
                        proof {
                            vstd::utf8::char_u32_cast(uc, v);
                        }
                        match parse_string_body_x(s, i + 6) {
                            Some((mut t, e)) => {
                                t.insert(0, uc);
                                proof {
                                    assert(t@ =~= seq![(v as u32) as char]
                                        + t@.subrange(1, t@.len() as int));
                                }
                                Some((t, e))
                            },
                            None => None,
                        }
                    },
                    None => None,
                }
            } else {
                None
            }
        } else {
            match unescape_char_x(e1) {
                Some(uc) => match parse_string_body_x(s, i + 2) {
                    Some((mut t, e)) => {
                        t.insert(0, uc);
                        proof {
                            assert(t@ =~= seq![uc] + t@.subrange(1, t@.len() as int));
                        }
                        Some((t, e))
                    },
                    None => None,
                },
                None => None,
            }
        }
    } else {
        match parse_string_body_x(s, i + 1) {
            Some((mut t, e)) => {
                t.insert(0, c);
                proof {
                    assert(t@ =~= seq![c] + t@.subrange(1, t@.len() as int));
                }
                Some((t, e))
            },
            None => None,
        }
    }
}

fn is_num_char_x(c: char) -> (r: bool)
    ensures
        r == is_num_char(c),
{
    ('0' <= c && c <= '9') || c == '-' || c == '+' || c == '.' || c == 'e' || c == 'E'
}

fn parse_num_body_x(s: &Vec<char>, i: usize) -> (r: (Vec<char>, usize))
    requires
        i <= s@.len(),
    ensures
        parse_num_body(s@, i as int) == (r.0@, r.1 as int),
        i <= r.1 <= s@.len(),
        i < s@.len() && is_num_char(s@[i as int]) ==> r.1 > i,
    decreases s@.len() - i,
{
    if i < s.len() && is_num_char_x(s[i]) {
        let (mut t, e) = parse_num_body_x(s, i + 1);
        t.insert(0, s[i]);
        proof {
            assert(t@ =~= seq![s@[i as int]] + t@.subrange(1, t@.len() as int));
        }
        (t, e)
    } else {
        let t: Vec<char> = Vec::new();
        proof {
            assert(t@ =~= Seq::<char>::empty());
        }
        (t, i)
    }
}

/// Whether the literal `w` stands at position `i`.
fn lit_at_x(s: &Vec<char>, i: usize, w: &str) -> (r: bool)
    requires
        i <= s@.len(),
    ensures
        r == lit_at(s@, i as int, w@),
{
    let n = w.unicode_len();
    if n > s.len() - i {
        return false;
    }
    let mut k: usize = 0;
    while k < n
        invariant
            n == w@.len(),
            i + n <= s@.len(),
            k <= n,
            forall|m: int| 0 <= m < k ==> s@[i + m] == w@[m],
        decreases n - k,
    {
        proof {
            assert(i + k < s.len());
        }
        if s[i + k] != w.get_char(k) {
            proof {
                assert(s@.subrange(i as int, i + w@.len()) != w@) by {
                    assert(s@.subrange(i as int, i + w@.len())[k as int] != w@[k as int]);
                }
            }
            return false;
        }
        k = k + 1;
    }
    proof {
        assert(s@.subrange(i as int, i + w@.len()) =~= w@);
    }
    true
}

fn parse_value_x(s: &Vec<char>, i: usize) -> (r: Option<(Json, usize)>)
    requires
        i <= s@.len(),
    ensures
        match r {
            Some((v, e)) => parse_value(s@, i as int) == Some((v@, e as int)) && i < e <= s@.len()
                && bounded(s@, i as int, skip_ws(s@, i as int)) < e as int,
            None => parse_value(s@, i as int) is None,
        },
    decreases s@.len() - i, 0int,
{
    let j = skip_ws_x(s, i);
    if j >= s.len() {
        return None;
    }
    let c = s[j];
    if c == 'n' {
        if lit_at_x(s, j, "null") {
            proof {
                reveal_strlit("null");
            }
            Some((Json::Null, j + 4))
        } else {
            None
        }
    } else if c == 't' {
        if lit_at_x(s, j, "true") {
            proof {
                reveal_strlit("true");
            }
            Some((Json::Bool(true), j + 4))
        } else {
            None
        }
    } else if c == 'f' {
        if lit_at_x(s, j, "false") {
            proof {
                reveal_strlit("false");
            }
            Some((Json::Bool(false), j + 5))
        } else {
            None
        }
    } else if c == '"' {
        match parse_string_body_x(s, j + 1) {
            Some((t, e)) => Some((Json::Str(t), e)),
            None => None,
        }
    } else if c == '[' {
        let k = skip_ws_x(s, j + 1);
        if k < s.len() && s[k] == ']' {
            let items: Vec<Json> = Vec::new();
            proof {
                lemma_json_view_list(items@);
                assert(json_view_list(items@) =~= Seq::<JsonV>::empty());
            }
            Some((Json::Arr(items), k + 1))
        } else {
            match parse_items_x(s, j + 1) {
                Some((items, e)) => Some((Json::Arr(items), e)),
                None => None,
            }
        }
    } else if c == '{' {
        let k = skip_ws_x(s, j + 1);
        if k < s.len() && s[k] == '}' {
            let members: Vec<(Vec<char>, Json)> = Vec::new();
            proof {
                lemma_json_view_obj(members@);
                assert(json_view_obj(members@) =~= Seq::<(Seq<char>, JsonV)>::empty());
            }
            Some((Json::Obj(members), k + 1))
        } else {
            match parse_members_x(s, j + 1) {
                Some((members, e)) => Some((Json::Obj(members), e)),
                None => None,
            }
        }
    } else if is_num_char_x(c) {
        let (t, e) = parse_num_body_x(s, j);
        Some((Json::Num(t), e))
    } else {
        None
    }
}

fn parse_items_x(s: &Vec<char>, i: usize) -> (r: Option<(Vec<Json>, usize)>)
    requires
        i <= s@.len(),
    ensures
        match r {
            Some((items, e)) => parse_items(s@, i as int) == Some((json_view_list(items@), e as int))
                && i < e <= s@.len(),
            None => parse_items(s@, i as int) is None,
        },
    decreases s@.len() - i, 1int,
{
    match parse_value_x(s, i) {
        None => None,
        Some((v, e0)) => {
            // the clamp in the specification provably changes nothing here
            proof {
                lemma_skip_ws_bounds(s@, i as int);
                assert(bounded(s@, bounded(s@, i as int, skip_ws(s@, i as int)) + 1, e0 as int)
                    == e0 as int);
            }
            let k = skip_ws_x(s, e0);
            if k >= s.len() {
                None
            } else if s[k] == ']' {
                let mut items: Vec<Json> = Vec::new();
                items.push(v);
                proof {
                    lemma_json_view_list(items@);
                    assert(json_view_list(items@) =~= seq![v@]);
                }
                Some((items, k + 1))
            } else if s[k] == ',' {
                match parse_items_x(s, k + 1) {
                    Some((mut rest, e2)) => {
                        let ghost rest0 = rest@;
                        rest.insert(0, v);
                        proof {
                            assert(rest@.subrange(1, rest@.len() as int) =~= rest0);
                            lemma_json_view_list(rest@);
                            lemma_json_view_list(rest0);
                            assert(json_view_list(rest@) =~= seq![v@] + json_view_list(rest0));
                        }
                        Some((rest, e2))
                    },
                    None => None,
                }
            } else {
                None
            }
        },
    }
}

fn parse_members_x(s: &Vec<char>, i: usize) -> (r: Option<(Vec<(Vec<char>, Json)>, usize)>)
    requires
        i <= s@.len(),
    ensures
        match r {
            Some((members, e)) => parse_members(s@, i as int) == Some(
                (json_view_obj(members@), e as int),
            ) && i < e <= s@.len(),
            None => parse_members(s@, i as int) is None,
        },
    decreases s@.len() - i, 1int,
{
    let k = skip_ws_x(s, i);
    if k >= s.len() {
        return None;
    }
    if s[k] != '"' {
        return None;
    }
    match parse_string_body_x(s, k + 1) {
        None => None,
        Some((key, e1)) => {
            proof {
                assert(bounded(s@, k as int + 2, e1 as int) == e1 as int);
            }
            let c = skip_ws_x(s, e1);
            if c >= s.len() {
                return None;
            }
            if s[c] != ':' {
                return None;
            }
            match parse_value_x(s, c + 1) {
                None => None,
                Some((v, e2)) => {
                    proof {
                        assert(bounded(s@, c as int + 2, e2 as int) == e2 as int);
                    }
                    let t = skip_ws_x(s, e2);
                    if t >= s.len() {
                        None
                    } else if s[t] == '}' {
                        let mut members: Vec<(Vec<char>, Json)> = Vec::new();
                        members.push((key, v));
                        proof {
                            lemma_json_view_obj(members@);
                            assert(json_view_obj(members@) =~= seq![(key@, v@)]);
                        }
                        Some((members, t + 1))
                    } else if s[t] == ',' {
                        match parse_members_x(s, t + 1) {
                            Some((mut rest, e3)) => {
                                let ghost rest0 = rest@;
                                rest.insert(0, (key, v));
                                proof {
                                    assert(rest@.subrange(1, rest@.len() as int) =~= rest0);
                                    lemma_json_view_obj(rest@);
                                    lemma_json_view_obj(rest0);
                                    assert(json_view_obj(rest@) =~= seq![(key@, v@)]
                                        + json_view_obj(rest0));
                                }
                                Some((rest, e3))
                            },
                            None => None,
                        }
                    } else {
                        None
                    }
                },
            }
        },
    }
}

// ------------------------------------------------------------------
// Executable rendering
// ------------------------------------------------------------------
/// Escaping distributes over concatenation.
pub proof fn lemma_escape_string_concat(a: Seq<char>, b: Seq<char>)
    ensures
        escape_string(a + b) == escape_string(a) + escape_string(b),
    decreases a.len(),
{
    if a.len() == 0 {
        assert(a + b =~= b);
        assert(escape_string(a) =~= Seq::<char>::empty());
        assert(escape_string(a) + escape_string(b) =~= escape_string(b));
    } else {
        lemma_escape_string_concat(a.drop_first(), b);
        assert((a + b).drop_first() =~= a.drop_first() + b);
        assert((a + b)[0] == a[0]);
        assert(escape_string(a + b) =~= escape_string(a) + escape_string(b));
    }
}

fn hex_digit_x(d: u32) -> (c: char)
    requires
        d < 16,
    ensures
        c == hex_digit(d as nat),
{
    match d {
        0 => '0',
        1 => '1',
        2 => '2',
        3 => '3',
        4 => '4',
        5 => '5',
        6 => '6',
        7 => '7',
        8 => '8',
        9 => '9',
        10 => 'a',
        11 => 'b',
        12 => 'c',
        13 => 'd',
        14 => 'e',
        _ => 'f',
    }
}

/// Append the rendered string literal for `sv` to `out`.
fn render_string_x(sv: &Vec<char>, out: &mut Vec<char>)
    ensures
        final(out)@ == old(out)@ + render_string(sv@),
{
    out.push('"');
    let ghost base = out@;
    let mut i: usize = 0;
    while i < sv.len()
        invariant
            i <= sv@.len(),
            out@ == base + escape_string(sv@.subrange(0, i as int)),
        decreases sv@.len() - i,
    {
        let c = sv[i];
        if c == '"' {
            out.push('\\');
            out.push('"');
        } else if c == '\\' {
            out.push('\\');
            out.push('\\');
        } else if (c as u32) < 32 {
            out.push('\\');
            out.push('u');
            out.push('0');
            out.push('0');
            out.push(hex_digit_x((c as u32) / 16));
            out.push(hex_digit_x((c as u32) % 16));
        } else {
            out.push(c);
        }
        i = i + 1;
        proof {
            let pre = sv@.subrange(0, i - 1);
            lemma_escape_string_concat(pre, seq![c]);
            assert(sv@.subrange(0, i as int) =~= pre + seq![c]);
            assert(seq![c].drop_first() =~= Seq::<char>::empty());
            assert(escape_string(Seq::<char>::empty()) =~= Seq::<char>::empty());
            assert(escape_char(c) + Seq::<char>::empty() =~= escape_char(c));
            assert(escape_string(seq![c]) =~= escape_char(c));
            assert(out@ =~= base + escape_string(sv@.subrange(0, i as int)));
        }
    }
    out.push('"');
    proof {
        assert(sv@.subrange(0, sv@.len() as int) =~= sv@);
        assert(out@ =~= old(out)@ + render_string(sv@));
    }
}

/// Append the rendered text of `j` to `out`.
fn render_x(j: &Json, out: &mut Vec<char>)
    ensures
        final(out)@ == old(out)@ + render(j@),
    decreases j, 1int,
{
    match j {
        Json::Null => {
            crate::chars::extend_str(out, "null");
        },
        Json::Bool(b) => {
            if *b {
                crate::chars::extend_str(out, "true");
            } else {
                crate::chars::extend_str(out, "false");
            }
        },
        Json::Num(s) => {
            crate::chars::extend_chars(out, s);
        },
        Json::Str(s) => {
            render_string_x(s, out);
        },
        Json::Arr(items) => {
            proof {
                lemma_json_view_list(items@);
            }
            if items.len() == 0 {
                crate::chars::extend_str(out, "[]");
            } else {
                out.push('[');
                out.push('\n');
                render_items_x(items, 0, out);
                out.push('\n');
                out.push(']');
                proof {
                    assert(json_view_list(items@).subrange(0, items@.len() as int)
                        =~= json_view_list(items@));
                    assert(out@ =~= old(out)@ + render(j@));
                }
            }
        },
        Json::Obj(members) => {
            proof {
                lemma_json_view_obj(members@);
            }
            if members.len() == 0 {
                crate::chars::extend_str(out, "{}");
            } else {
                out.push('{');
                out.push('\n');
                render_members_x(members, 0, out);
                out.push('\n');
                out.push('}');
                proof {
                    assert(json_view_obj(members@).subrange(0, members@.len() as int)
                        =~= json_view_obj(members@));
                    assert(out@ =~= old(out)@ + render(j@));
                }
            }
        },
    }
}

/// Append the rendered elements from `idx` on, comma-separated.
fn render_items_x(items: &Vec<Json>, idx: usize, out: &mut Vec<char>)
    requires
        idx < items@.len(),
    ensures
        final(out)@ == old(out)@ + render_items(
            json_view_list(items@).subrange(idx as int, items@.len() as int),
        ),
    decreases items, items@.len() - idx,
{
    proof {
        lemma_json_view_list(items@);
        assert(idx < items.len());
    }
    let ghost tail = json_view_list(items@).subrange(idx as int, items@.len() as int);
    render_x(&items[idx], out);
    if idx + 1 < items.len() {
        out.push(',');
        out.push('\n');
        render_items_x(items, idx + 1, out);
        proof {
            assert(tail.drop_first() =~= json_view_list(items@).subrange(
                idx + 1,
                items@.len() as int,
            ));
            assert(tail[0] == json_view(items@[idx as int]));
            assert(out@ =~= old(out)@ + render_items(tail));
        }
    } else {
        proof {
            assert(tail.len() == 1);
            assert(tail[0] == json_view(items@[idx as int]));
            assert(out@ =~= old(out)@ + render_items(tail));
        }
    }
}

/// Append the rendered members from `idx` on, comma-separated.
fn render_members_x(members: &Vec<(Vec<char>, Json)>, idx: usize, out: &mut Vec<char>)
    requires
        idx < members@.len(),
    ensures
        final(out)@ == old(out)@ + render_members(
            json_view_obj(members@).subrange(idx as int, members@.len() as int),
        ),
    decreases members, members@.len() - idx,
{
    proof {
        lemma_json_view_obj(members@);
        assert(idx < members.len());
    }
    let ghost tail = json_view_obj(members@).subrange(idx as int, members@.len() as int);
    render_string_x(&members[idx].0, out);
    out.push(':');
    out.push(' ');
    render_x(&members[idx].1, out);
    if idx + 1 < members.len() {
        out.push(',');
        out.push('\n');
        render_members_x(members, idx + 1, out);
        proof {
            assert(tail.drop_first() =~= json_view_obj(members@).subrange(
                idx + 1,
                members@.len() as int,
            ));
            assert(tail[0] == (members@[idx as int].0@, json_view(members@[idx as int].1)));
            assert(out@ =~= old(out)@ + render_members(tail));
        }
    } else {
        proof {
            assert(tail.len() == 1);
            assert(tail[0] == (members@[idx as int].0@, json_view(members@[idx as int].1)));
            assert(out@ =~= old(out)@ + render_members(tail));
        }
    }
}

/// Render a whole value to text.
pub fn render_json(j: &Json) -> (s: String)
    ensures
        s@ == render(j@),
{
    let mut out: Vec<char> = Vec::new();
    render_x(j, &mut out);
    proof {
        assert(out@ =~= render(j@));
    }
    crate::chars::chars_string(&out)
}

/// Parse a whole text: one value with nothing but whitespace around it.
pub fn parse_json(s: &Vec<char>) -> (r: Option<Json>)
    ensures
        match r {
            Some(v) => json_of(s@) == Some(v@),
            None => json_of(s@) is None,
        },
{
    match parse_value_x(s, 0) {
        None => None,
        Some((v, e)) => {
            let t = skip_ws_x(s, e);
            if t == s.len() {
                Some(v)
            } else {
                None
            }
        },
    }
}

} // verus!
