//! Path text handling: joining, separator normalization, the safety rule for
//! archive entry names, and collision-free file naming inside one folder.
use vstd::prelude::*;

use crate::chars::{dec_digits, digit_val, lemma_dec_digits_value};
use crate::errors::StoreError;

verus! {

broadcast use vstd::std_specs::vec::group_vec_axioms;

// ------------------------------------------------------------------
// Joining and normalizing
// ------------------------------------------------------------------
/// A path under a base directory, with the canonical separator.
pub open spec fn path_join(a: Seq<char>, b: Seq<char>) -> Seq<char> {
    a + seq!['/'] + b
}

/// Join two path pieces with the canonical separator.
pub fn join(a: &str, b: &str) -> (r: String)
    ensures
        r@ == path_join(a@, b@),
{
    let mut out = crate::chars::str_chars(a);
    out.push('/');
    crate::chars::extend_str(&mut out, b);
    proof {
        assert(out@ =~= path_join(a@, b@));
    }
    crate::chars::chars_string(&out)
}

/// Every backslash turned into the canonical separator.
pub open spec fn normalized_seps(s: Seq<char>) -> Seq<char> {
    s.map_values(|c: char| if c == '\\' { '/' } else { c })
}

/// Normalize separators for a portable archive entry path.
pub fn normalize_seps_x(s: &str) -> (r: String)
    ensures
        r@ == normalized_seps(s@),
{
    let cs = crate::chars::str_chars(s);
    let mut out: Vec<char> = Vec::new();
    let mut i: usize = 0;
    while i < cs.len()
        invariant
            i <= cs@.len(),
            out@ == normalized_seps(cs@).subrange(0, i as int),
        decreases cs@.len() - i,
    {
        let c = cs[i];
        if c == '\\' {
            out.push('/');
        } else {
            out.push(c);
        }
        i = i + 1;
        proof {
            assert(out@ =~= normalized_seps(cs@).subrange(0, i as int));
        }
    }
    proof {
        assert(out@ =~= normalized_seps(cs@));
    }
    crate::chars::chars_string(&out)
}

// ------------------------------------------------------------------
// Archive entry safety
// ------------------------------------------------------------------
/// Index of the first separator, or the length when there is none.
pub open spec fn find_sep(s: Seq<char>) -> int
    decreases s.len(),
{
    if s.len() == 0 {
        0
    } else if s[0] == '/' {
        0
    } else {
        1 + find_sep(s.drop_first())
    }
}

pub proof fn lemma_find_sep(s: Seq<char>)
    ensures
        0 <= find_sep(s) <= s.len(),
        forall|k: int| 0 <= k < find_sep(s) ==> s[k] != '/',
        find_sep(s) < s.len() ==> s[find_sep(s)] == '/',
    decreases s.len(),
{
    if s.len() > 0 && s[0] != '/' {
        lemma_find_sep(s.drop_first());
        assert forall|k: int| 0 <= k < find_sep(s) implies s[k] != '/' by {
            if k > 0 {
                assert(s.drop_first()[k - 1] != '/');
            }
        }
    }
}

/// The separator-split pieces of a path. The separator position is forced
/// into range; `lemma_find_sep` shows it already is.
pub open spec fn components(s: Seq<char>) -> Seq<Seq<char>>
    decreases s.len(),
{
    let k0 = find_sep(s);
    let k = if k0 < 0 {
        0
    } else if k0 > s.len() {
        s.len() as int
    } else {
        k0
    };
    if k >= s.len() {
        seq![s]
    } else {
        seq![s.subrange(0, k)] + components(s.subrange(k + 1, s.len() as int))
    }
}

/// One acceptable path piece: non-empty and no dot alias.
pub open spec fn component_ok(c: Seq<char>) -> bool {
    c.len() > 0 && c != "."@ && c != ".."@
}

pub open spec fn components_all_ok(cs: Seq<Seq<char>>) -> bool
    decreases cs,
{
    cs.len() == 0 || (component_ok(cs[0]) && components_all_ok(cs.drop_first()))
}

/// The names an archive entry may carry: relative, with clean pieces, no
/// alternate separators, no drive letters, no stray zero characters.
pub open spec fn safe_entry_name(s: Seq<char>) -> bool {
    &&& s.len() > 0
    &&& !s.contains('\\')
    &&& !s.contains(':')
    &&& !s.contains('\u{0}')
    &&& components_all_ok(components(s))
}

/// Where a relative path lands when resolved against a base, piece by
/// piece: a dot holds still, a double dot climbs, anything else descends.
pub open spec fn resolved(base: Seq<Seq<char>>, cs: Seq<Seq<char>>) -> Seq<Seq<char>>
    decreases cs,
{
    if cs.len() == 0 {
        base
    } else if cs[0] == "."@ {
        resolved(base, cs.drop_first())
    } else if cs[0] == ".."@ {
        resolved(base.drop_last(), cs.drop_first())
    } else {
        resolved(base.push(cs[0]), cs.drop_first())
    }
}

/// A safe entry name resolves to a strict descendant of the base: the base
/// path stays a prefix, and nothing above it is ever touched.
pub proof fn lemma_safe_entry_stays_inside(base: Seq<Seq<char>>, name: Seq<char>)
    requires
        safe_entry_name(name),
    ensures
        resolved(base, components(name)) == base + components(name),
        resolved(base, components(name)).len() > base.len(),
        forall|k: int|
            0 <= k < base.len() ==> resolved(base, components(name))[k] == base[k],
{
    lemma_resolved_clean(base, components(name));
    lemma_components_len(name);
}

proof fn lemma_components_len(name: Seq<char>)
    ensures
        components(name).len() > 0,
    decreases name.len(),
{
    let k = find_sep(name);
    lemma_find_sep(name);
    if k < name.len() {
        lemma_components_len(name.subrange(k + 1, name.len() as int));
    }
}

proof fn lemma_resolved_clean(base: Seq<Seq<char>>, cs: Seq<Seq<char>>)
    requires
        components_all_ok(cs),
    ensures
        resolved(base, cs) == base + cs,
    decreases cs,
{
    if cs.len() == 0 {
        assert(base + cs =~= base);
    } else {
        lemma_resolved_clean(base.push(cs[0]), cs.drop_first());
        assert(base.push(cs[0]) + cs.drop_first() =~= base + cs);
    }
}

/// The safety rule as a checked result: an entry name that would escape the
/// store root is a path security error.
pub fn validate_entry_name(name: &str) -> (r: Result<(), crate::errors::StoreError>)
    ensures
        r is Ok <==> safe_entry_name(name@),
        r matches Err(e) ==> e == crate::errors::StoreError::PathSecurityError,
{
    if safe_entry_name_x(name) {
        Ok(())
    } else {
        Err(crate::errors::StoreError::PathSecurityError)
    }
}

/// Decide whether an archive entry name is safe to write under the root.
pub fn safe_entry_name_x(s: &str) -> (r: bool)
    ensures
        r == safe_entry_name(s@),
{
    let cs = crate::chars::str_chars(s);
    if cs.len() == 0 {
        return false;
    }
    if contains_char(&cs, '\\') || contains_char(&cs, ':') || contains_char(&cs, '\u{0}') {
        return false;
    }
    proof {
        assert(cs@.subrange(0, cs@.len() as int) =~= cs@);
    }
    components_ok_from(&cs, 0)
}

fn contains_char(s: &Vec<char>, c: char) -> (r: bool)
    ensures
        r == s@.contains(c),
{
    let mut i: usize = 0;
    while i < s.len()
        invariant
            i <= s@.len(),
            forall|k: int| 0 <= k < i ==> s@[k] != c,
        decreases s@.len() - i,
    {
        if s[i] == c {
            return true;
        }
        i = i + 1;
    }
    proof {
        assert(!s@.contains(c)) by {
            if s@.contains(c) {
                let k = choose|k: int| 0 <= k < s@.len() && s@[k] == c;
                assert(s@[k] != c);
            }
        }
    }
    false
}

// ------------------------------------------------------------------
// Collision-free file naming
// ------------------------------------------------------------------
/// Index of the last dot in a file name, or -1 when there is none.
pub open spec fn last_dot(name: Seq<char>) -> int
    decreases name.len(),
{
    if name.len() == 0 {
        -1
    } else if name.last() == '.' {
        name.len() - 1
    } else {
        last_dot(name.drop_last())
    }
}

/// A file name splits into a stem and an extension when a dot stands after
/// at least one leading character.
pub open spec fn has_split(name: Seq<char>) -> bool {
    last_dot(name) > 0
}

pub open spec fn stem_of(name: Seq<char>) -> Seq<char> {
    name.subrange(0, last_dot(name))
}

pub open spec fn ext_of(name: Seq<char>) -> Seq<char> {
    name.subrange(last_dot(name) + 1, name.len() as int)
}

pub proof fn lemma_last_dot(name: Seq<char>)
    ensures
        -1 <= last_dot(name) < name.len(),
        last_dot(name) >= 0 ==> name[last_dot(name)] == '.',
        forall|k: int| last_dot(name) < k < name.len() ==> name[k] != '.',
    decreases name.len(),
{
    if name.len() > 0 && name.last() != '.' {
        lemma_last_dot(name.drop_last());
        assert forall|k: int| last_dot(name) < k < name.len() implies name[k] != '.' by {
            if k < name.len() - 1 {
                assert(name.drop_last()[k] != '.');
            }
        }
    }
}

/// A split name is the stem, a dot, and the extension.
pub proof fn lemma_split_recompose(name: Seq<char>)
    requires
        has_split(name),
    ensures
        name == stem_of(name) + seq!['.'] + ext_of(name),
        name.len() == stem_of(name).len() + 1 + ext_of(name).len(),
{
    lemma_last_dot(name);
    assert(name =~= stem_of(name) + seq!['.'] + ext_of(name));
}

/// The file name tried at attempt `k`: the name itself first, then the stem
/// with a numeric suffix.
pub open spec fn candidate_name(name: Seq<char>, k: nat) -> Seq<char> {
    if k == 0 {
        name
    } else {
        stem_of(name) + seq!['_'] + dec_digits(k) + seq!['.'] + ext_of(name)
    }
}

/// Whether a name already stands in the folder listing.
pub open spec fn name_taken(existing: Seq<Seq<char>>, n: Seq<char>) -> bool {
    exists|i: int| 0 <= i < existing.len() && existing[i] == n
}

/// The texts of a listing of names.
pub open spec fn string_views(v: Seq<String>) -> Seq<Seq<char>> {
    v.map_values(|s: String| s@)
}

proof fn lemma_dec_digits_are_digits(n: nat)
    ensures
        dec_digits(n).len() > 0,
        forall|i: int| 0 <= i < dec_digits(n).len() ==> digit_val(#[trigger] dec_digits(n)[i]) < 10,
    decreases n,
{
    if n < 10 {
        assert(dec_digits(n) =~= seq![crate::chars::digit_char(n)]);
    } else {
        lemma_dec_digits_are_digits(n / 10);
        assert forall|i: int| 0 <= i < dec_digits(n).len() implies digit_val(
            #[trigger] dec_digits(n)[i],
        ) < 10 by {
            if i < dec_digits(n / 10).len() {
                assert(dec_digits(n)[i] == dec_digits(n / 10)[i]);
            } else {
                assert(dec_digits(n)[i] == crate::chars::digit_char(n % 10));
            }
        }
    }
}

/// Different attempts always try different names.
proof fn lemma_candidate_distinct(name: Seq<char>, j1: nat, j2: nat)
    requires
        has_split(name),
        j1 != j2,
    ensures
        candidate_name(name, j1) != candidate_name(name, j2),
{
    lemma_split_recompose(name);
    lemma_dec_digits_are_digits(j1);
    lemma_dec_digits_are_digits(j2);
    let st = stem_of(name);
    let ex = ext_of(name);
    if j1 == 0 || j2 == 0 {
        assert(candidate_name(name, j1).len() != candidate_name(name, j2).len());
    } else {
        let a = candidate_name(name, j1);
        let b = candidate_name(name, j2);
        let d1 = dec_digits(j1);
        let d2 = dec_digits(j2);
        if a == b {
            assert(a.len() == st.len() + 1 + d1.len() + 1 + ex.len());
            assert(b.len() == st.len() + 1 + d2.len() + 1 + ex.len());
            assert(d1.len() == d2.len());
            assert(d1 =~= d2) by {
                assert forall|i: int| 0 <= i < d1.len() implies d1[i] == d2[i] by {
                    assert(a[st.len() + 1 + i] == d1[i]);
                    assert(b[st.len() + 1 + i] == d2[i]);
                }
            }
            lemma_dec_digits_value(j1);
            lemma_dec_digits_value(j2);
            assert(false);
        }
    }
}

/// If every attempt below `k` found its name taken, `k` cannot exceed the
/// number of names in the folder: the attempted names are pairwise distinct.
proof fn lemma_attempts_bounded(existing: Seq<Seq<char>>, name: Seq<char>, k: nat)
    requires
        has_split(name),
        forall|j: nat| j < k ==> name_taken(existing, #[trigger] candidate_name(name, j)),
    ensures
        k <= existing.len(),
{
    broadcast use vstd::seq_lib::seq_to_set_is_finite;
    broadcast use vstd::set::group_set_axioms;

    let cs = Seq::new(k as nat, |j: int| candidate_name(name, j as nat));
    assert(cs.no_duplicates()) by {
        assert forall|i1: int, i2: int|
            0 <= i1 < cs.len() && 0 <= i2 < cs.len() && i1 != i2 implies cs[i1] != cs[i2] by {
            lemma_candidate_distinct(name, i1 as nat, i2 as nat);
        }
    }
    cs.unique_seq_to_set();
    assert(cs.to_set() <= existing.to_set()) by {
        assert forall|c: Seq<char>| cs.to_set().contains(c) implies existing.to_set().contains(
            c,
        ) by {
            let j = choose|j: int| 0 <= j < cs.len() && cs[j] == c;
            assert(name_taken(existing, candidate_name(name, j as nat)));
            let i = choose|i: int| 0 <= i < existing.len() && existing[i] == c;
            assert(existing.to_set().contains(existing[i]));
        }
    }
    existing.lemma_cardinality_of_set();
    vstd::set_lib::lemma_len_subset(cs.to_set(), existing.to_set());
}

/// Index of the last dot, if any.
fn find_last_dot(cs: &Vec<char>) -> (r: Option<usize>)
    ensures
        match r {
            Some(ix) => last_dot(cs@) == ix as int,
            None => last_dot(cs@) == -1,
        },
{
    let mut i: usize = cs.len();
    proof {
        assert(cs@.subrange(0, cs@.len() as int) =~= cs@);
    }
    while i > 0
        invariant
            i <= cs@.len(),
            last_dot(cs@) == last_dot(cs@.subrange(0, i as int)),
        decreases i,
    {
        i = i - 1;
        let ghost before = cs@.subrange(0, i + 1);
        if cs[i] == '.' {
            proof {
                assert(before.last() == '.');
                assert(last_dot(before) == i);
            }
            return Some(i);
        }
        proof {
            assert(before.last() != '.');
            assert(before.drop_last() =~= cs@.subrange(0, i as int));
        }
    }
    proof {
        assert(cs@.subrange(0, 0) =~= Seq::<char>::empty());
    }
    None
}

/// Split a file name into its stem and its extension; a name without both
/// cannot take part in collision renaming and yields nothing.
pub fn split_name(name: &str) -> (r: Option<(String, String)>)
    ensures
        match r {
            Some((st, ex)) => has_split(name@) && st@ == stem_of(name@) && ex@ == ext_of(name@),
            None => !has_split(name@),
        },
{
    let cs = crate::chars::str_chars(name);
    match find_last_dot(&cs) {
        Some(ix) => {
            proof {
                lemma_last_dot(cs@);
                assert(ix < cs.len());
            }
            if ix == 0 {
                return None;
            }
            let mut st: Vec<char> = Vec::new();
            let mut i: usize = 0;
            while i < ix
                invariant
                    ix < cs@.len(),
                    i <= ix,
                    st@ == cs@.subrange(0, i as int),
                decreases ix - i,
            {
                st.push(cs[i]);
                i = i + 1;
                proof {
                    assert(st@ =~= cs@.subrange(0, i as int));
                }
            }
            let mut ex: Vec<char> = Vec::new();
            let mut j: usize = ix + 1;
            while j < cs.len()
                invariant
                    ix < cs@.len(),
                    ix + 1 <= j <= cs@.len(),
                    ex@ == cs@.subrange(ix + 1, j as int),
                decreases cs@.len() - j,
            {
                ex.push(cs[j]);
                j = j + 1;
                proof {
                    assert(ex@ =~= cs@.subrange(ix + 1, j as int));
                }
            }
            Some((crate::chars::chars_string(&st), crate::chars::chars_string(&ex)))
        },
        None => None,
    }
}

/// Whether the name stands in the listing.
fn taken_x(existing: &Vec<String>, cand: &Vec<char>) -> (r: bool)
    ensures
        r == name_taken(string_views(existing@), cand@),
{
    let ghost views = string_views(existing@);
    let mut i: usize = 0;
    while i < existing.len()
        invariant
            i <= existing@.len(),
            views == string_views(existing@),
            forall|k: int| 0 <= k < i ==> views[k] != cand@,
        decreases existing@.len() - i,
    {
        if crate::chars::chars_eq_str(cand, existing[i].as_str()) {
            proof {
                assert(views[i as int] == cand@);
            }
            return true;
        }
        i = i + 1;
    }
    proof {
        if name_taken(views, cand@) {
            let k = choose|k: int| 0 <= k < views.len() && views[k] == cand@;
            assert(views[k] != cand@);
        }
    }
    false
}

/// The chosen name of a successful collision-free pick: the first attempt
/// whose name is free in the listing.
pub open spec fn chosen_name(
    existing: Seq<Seq<char>>,
    name: Seq<char>,
    out: Seq<char>,
    k: nat,
) -> bool {
    &&& out == candidate_name(name, k)
    &&& !name_taken(existing, out)
    &&& forall|j: nat| j < k ==> name_taken(existing, #[trigger] candidate_name(name, j))
}

/// A successful pick: some attempt number chose this name.
pub open spec fn picked_name(existing: Seq<String>, name: Seq<char>, out: Seq<char>) -> bool {
    exists|k: nat| #[trigger] chosen_name(string_views(existing), name, out, k)
}

/// Pick a file name that is free among `existing`: the source name itself
/// when free, else the stem with the smallest numeric suffix. A source name
/// without a stem and an extension is rejected.
pub fn collision_free_name(existing: &Vec<String>, name: &str) -> (r: Result<String, StoreError>)
    ensures
        r matches Ok(out) ==> has_split(name@) && picked_name(existing@, name@, out@),
        r matches Err(e) ==> !has_split(name@) && e matches StoreError::IOError(_),
{
    let ghost views = string_views(existing@);
    match split_name(name) {
        None => Err(StoreError::IOError(String::from_str("source file has no extension"))),
        Some((st, ex)) => {
            let name_cs = crate::chars::str_chars(name);
            if !taken_x(existing, &name_cs) {
                let out = crate::chars::chars_string(&name_cs);
                proof {
                    assert(picked_name(existing@, name@, out@)) by {
                        assert(chosen_name(string_views(existing@), name@, out@, 0nat));
                    }
                }
                return Ok(out);
            }
            let st_cs = crate::chars::str_chars(st.as_str());
            let ex_cs = crate::chars::str_chars(ex.as_str());
            let mut k: u64 = 1;
            loop
                invariant
                    has_split(name@),
                    st_cs@ == stem_of(name@),
                    ex_cs@ == ext_of(name@),
                    views == string_views(existing@),
                    1 <= k,
                    k <= existing@.len() + 1,
                    forall|j: nat| j < k ==> name_taken(views, #[trigger] candidate_name(name@, j)),
                decreases existing@.len() + 1 - k,
            {
                let mut cand: Vec<char> = Vec::new();
                crate::chars::extend_chars(&mut cand, &st_cs);
                cand.push('_');
                let digits = crate::chars::dec_chars(k);
                crate::chars::extend_chars(&mut cand, &digits);
                cand.push('.');
                crate::chars::extend_chars(&mut cand, &ex_cs);
                proof {
                    assert(cand@ =~= candidate_name(name@, k as nat));
                }
                if !taken_x(existing, &cand) {
                    let out = crate::chars::chars_string(&cand);
                    proof {
                        assert(picked_name(existing@, name@, out@)) by {
                            assert(chosen_name(string_views(existing@), name@, out@, k as nat));
                        }
                    }
                    return Ok(out);
                }
                proof {
                    assert forall|j: nat| j < k + 1 implies name_taken(
                        views,
                        #[trigger] candidate_name(name@, j),
                    ) by {
                        if j == k {
                            assert(name_taken(views, cand@));
                        }
                    }
                    lemma_attempts_bounded(views, name@, (k + 1) as nat);
                    assert(existing@.len() == existing.len());
                }
                k = k + 1;
            }
        },
    }
}

/// Check every component of `s` from position `start` on.
fn components_ok_from(s: &Vec<char>, start: usize) -> (r: bool)
    requires
        start <= s@.len(),
    ensures
        r == components_all_ok(components(s@.subrange(start as int, s@.len() as int))),
    decreases s@.len() - start,
{
    let ghost sub = s@.subrange(start as int, s@.len() as int);
    let mut j = start;
    while j < s.len() && s[j] != '/'
        invariant
            start <= j <= s@.len(),
            forall|k: int| start <= k < j ==> s@[k] != '/',
            find_sep(sub) == j - start + find_sep(s@.subrange(j as int, s@.len() as int)),
        decreases s@.len() - j,
    {
        proof {
            let tail = s@.subrange(j as int, s@.len() as int);
            assert(tail[0] == s@[j as int]);
            assert(tail.drop_first() =~= s@.subrange(j + 1, s@.len() as int));
        }
        j = j + 1;
    }
    proof {
        let tail = s@.subrange(j as int, s@.len() as int);
        if j < s.len() {
            assert(tail[0] == '/');
            assert(find_sep(tail) == 0);
        } else {
            assert(tail.len() == 0);
            assert(find_sep(tail) == 0);
        }
        assert(find_sep(sub) == j - start);
        lemma_find_sep(sub);
    }
    // the piece is s[start .. j]
    let piece_len = j - start;
    let piece_bad = piece_len == 0 || (piece_len == 1 && s[start] == '.') || (piece_len == 2
        && s[start] == '.' && s[start + 1] == '.');
    proof {
        let piece = sub.subrange(0, piece_len as int);
        reveal_strlit(".");
        reveal_strlit("..");
        assert(piece.len() == piece_len);
        assert forall|k: int| 0 <= k < piece_len implies piece[k] == s@[start + k] by {}
        if piece_len == 1 && s@[start as int] == '.' {
            assert(piece =~= "."@);
        }
        if piece_len == 2 && s@[start as int] == '.' && s@[start as int + 1] == '.' {
            assert(piece =~= ".."@);
        }
        if !piece_bad {
            assert(piece != "."@ && piece != ".."@) by {
                if piece == "."@ {
                    assert(piece.len() == 1 && piece[0] == '.');
                }
                if piece == ".."@ {
                    assert(piece.len() == 2 && piece[0] == '.' && piece[1] == '.');
                }
            }
        }
    }
    if j >= s.len() {
        proof {
            assert(components(sub) =~= seq![sub]);
            assert(sub.subrange(0, piece_len as int) =~= sub);
            assert(seq![sub].drop_first() =~= Seq::<Seq<char>>::empty());
            assert(components_all_ok(Seq::<Seq<char>>::empty()));
            assert(components_all_ok(components(sub)) == component_ok(sub));
            assert(component_ok(sub) == !piece_bad);
        }
        !piece_bad
    } else {
        proof {
            assert(sub.subrange(piece_len + 1, sub.len() as int) =~= s@.subrange(
                j + 1,
                s@.len() as int,
            ));
            assert(components(sub) == seq![sub.subrange(0, piece_len as int)] + components(
                s@.subrange(j + 1, s@.len() as int),
            ));
            assert(components(sub)[0] == sub.subrange(0, piece_len as int));
            assert(components(sub).drop_first() =~= components(
                s@.subrange(j + 1, s@.len() as int),
            ));
            assert(components(sub).len() > 0);
        }
        if piece_bad {
            proof {
                assert(!component_ok(sub.subrange(0, piece_len as int)));
                assert(!components_all_ok(components(sub)));
            }
            return false;
        }
        let rest_ok = components_ok_from(s, j + 1);
        proof {
            assert(component_ok(sub.subrange(0, piece_len as int)));
            assert(components_all_ok(components(sub)) == components_all_ok(
                components(s@.subrange(j + 1, s@.len() as int)),
            ));
        }
        rest_ok
    }
}

} // verus!
