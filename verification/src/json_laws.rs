//! Parsing a rendered JSON tree gives the tree back. The renderer never
//! writes a number token, so the statement holds of every number-free tree;
//! record documents are built from strings, arrays and objects only.
use vstd::prelude::*;

use crate::json::{
    bounded, escape_char, escape_string, hex_digit, hex_val, is_hex_char, is_ws, json_of, lit_at,
    parse_string_body, parse_items, parse_members, parse_value, render, render_items,
    render_members, render_string, skip_ws, JsonV,
};

verus! {

/// Trees the renderer can write without a number token.
pub open spec fn num_free(j: JsonV) -> bool
    decreases j, 1int,
{
    match j {
        JsonV::Null => true,
        JsonV::Bool(_) => true,
        JsonV::Num(_) => false,
        JsonV::Str(_) => true,
        JsonV::Arr(items) => num_free_list(items),
        JsonV::Obj(members) => num_free_obj(members),
    }
}

pub open spec fn num_free_list(items: Seq<JsonV>) -> bool
    decreases items, 0int,
{
    items.len() == 0 || (num_free(items[0]) && num_free_list(items.drop_first()))
}

pub open spec fn num_free_obj(members: Seq<(Seq<char>, JsonV)>) -> bool
    decreases members, 0int,
{
    members.len() == 0 || (num_free(members[0].1) && num_free_obj(members.drop_first()))
}

/// The text `w` stands in `s` at position `i`.
pub open spec fn text_at(s: Seq<char>, i: int, w: Seq<char>) -> bool {
    0 <= i && i + w.len() <= s.len() && s.subrange(i, i + w.len()) == w
}

proof fn lemma_text_at_split(s: Seq<char>, i: int, a: Seq<char>, b: Seq<char>)
    requires
        text_at(s, i, a + b),
    ensures
        text_at(s, i, a),
        text_at(s, i + a.len(), b),
{
    assert(s.subrange(i, i + a.len()) =~= a) by {
        assert forall|k: int| 0 <= k < a.len() implies s.subrange(i, i + a.len())[k] == a[k] by {
            assert(s.subrange(i, i + (a + b).len())[k] == (a + b)[k]);
        }
    }
    assert(s.subrange(i + a.len(), i + a.len() + b.len()) =~= b) by {
        assert forall|k: int| 0 <= k < b.len() implies s.subrange(
            i + a.len(),
            i + a.len() + b.len(),
        )[k] == b[k] by {
            assert(s.subrange(i, i + (a + b).len())[a.len() + k] == (a + b)[a.len() + k]);
        }
    }
}

proof fn lemma_text_at_char(s: Seq<char>, i: int, w: Seq<char>, k: int)
    requires
        text_at(s, i, w),
        0 <= k < w.len(),
    ensures
        s[i + k] == w[k],
{
    assert(s.subrange(i, i + w.len())[k] == w[k]);
}

proof fn lemma_skip_ws_nonws(s: Seq<char>, i: int)
    requires
        0 <= i <= s.len(),
        i == s.len() || !is_ws(s[i]),
    ensures
        skip_ws(s, i) == i,
        bounded(s, i, skip_ws(s, i)) == i,
{
}

proof fn lemma_skip_ws_one(s: Seq<char>, i: int)
    requires
        0 <= i,
        i + 1 <= s.len(),
        is_ws(s[i]),
        i + 1 == s.len() || !is_ws(s[i + 1]),
    ensures
        skip_ws(s, i) == i + 1,
        bounded(s, i, skip_ws(s, i)) == i + 1,
{
    lemma_skip_ws_nonws(s, i + 1);
}

proof fn lemma_hex_of_digit(d: nat)
    requires
        d < 16,
    ensures
        is_hex_char(hex_digit(d)),
        hex_val(hex_digit(d)) == d,
{
}

/// The first character of a rendered tree: never whitespace, and never a
/// character that ends or separates an enclosing list.
proof fn lemma_render_first(j: JsonV)
    requires
        num_free(j),
    ensures
        render(j).len() > 0,
        !is_ws(render(j)[0]),
        render(j)[0] != ']',
        render(j)[0] != '}',
        render(j)[0] != ',',
        render(j)[0] != ':',
{
    reveal_strlit("null");
    reveal_strlit("true");
    reveal_strlit("false");
    reveal_strlit("[]");
    reveal_strlit("{}");
    match j {
        JsonV::Null => {
            assert(render(j)[0] == 'n');
        },
        JsonV::Bool(b) => {
            if b {
                assert(render(j)[0] == 't');
            } else {
                assert(render(j)[0] == 'f');
            }
        },
        JsonV::Num(_) => {},
        JsonV::Str(s) => {
            assert(render(j)[0] == '"');
        },
        JsonV::Arr(items) => {
            assert(render(j)[0] == '[');
        },
        JsonV::Obj(members) => {
            assert(render(j)[0] == '{');
        },
    }
}

/// Parsing a rendered and quote-terminated string literal body yields the
/// original text.
proof fn lemma_parse_escape(t: Seq<char>, s: Seq<char>, i: int)
    requires
        text_at(s, i, escape_string(t) + seq!['"']),
    ensures
        parse_string_body(s, i) == Some((t, i + escape_string(t).len() + 1)),
    decreases t.len(),
{
    if t.len() == 0 {
        assert(escape_string(t) =~= Seq::<char>::empty());
        assert((escape_string(t) + seq!['"'])[0] == '"');
        lemma_text_at_char(s, i, escape_string(t) + seq!['"'], 0);
        assert(s[i] == '"');
        assert(t =~= Seq::<char>::empty());
    } else {
        let c = t[0];
        let rest = t.drop_first();
        let e0 = escape_char(c);
        let etail = escape_string(rest) + seq!['"'];
        assert(escape_string(t) == e0 + escape_string(rest));
        assert(escape_string(t) + seq!['"'] =~= e0 + etail);
        lemma_text_at_split(s, i, e0, etail);
        lemma_parse_escape(rest, s, i + e0.len());
        if c == '"' {
            lemma_text_at_char(s, i, e0, 0);
            lemma_text_at_char(s, i, e0, 1);
            assert(s[i] == '\\' && s[i + 1] == '"');
            assert(parse_string_body(s, i) == Some((seq![c] + rest, i + escape_string(t).len() + 1)));
            assert(seq![c] + rest =~= t);
        } else if c == '\\' {
            lemma_text_at_char(s, i, e0, 0);
            lemma_text_at_char(s, i, e0, 1);
            assert(s[i] == '\\' && s[i + 1] == '\\');
            assert(seq![c] + rest =~= t);
        } else if (c as u32) < 32 {
            lemma_text_at_char(s, i, e0, 0);
            lemma_text_at_char(s, i, e0, 1);
            lemma_text_at_char(s, i, e0, 2);
            lemma_text_at_char(s, i, e0, 3);
            lemma_text_at_char(s, i, e0, 4);
            lemma_text_at_char(s, i, e0, 5);
            let hi = ((c as u32) / 16) as nat;
            let lo = ((c as u32) % 16) as nat;
            assert(s[i] == '\\' && s[i + 1] == 'u' && s[i + 2] == '0' && s[i + 3] == '0');
            assert(s[i + 4] == hex_digit(hi) && s[i + 5] == hex_digit(lo));
            lemma_hex_of_digit(hi);
            lemma_hex_of_digit(lo);
            assert(is_hex_char('0') && hex_val('0') == 0);
            let v = hex_val(s[i + 2]) * 4096 + hex_val(s[i + 3]) * 256 + hex_val(s[i + 4]) * 16
                + hex_val(s[i + 5]);
            assert(v == hi * 16 + lo);
            assert(hi * 16 + lo == c as u32) by (nonlinear_arith)
                requires
                    hi == ((c as u32) / 16) as nat,
                    lo == ((c as u32) % 16) as nat,
            ;
            assert(v < 32);
            assert((v as u32) as char == c) by {
                vstd::utf8::char_u32_cast(c, c as u32);
            }
            assert(seq![c] + rest =~= t);
        } else {
            lemma_text_at_char(s, i, e0, 0);
            assert(s[i] == c);
            assert(seq![c] + rest =~= t);
        }
    }
}

/// Parsing text that carries a rendered tree at its reading position yields
/// exactly that tree, ending right after it.
pub proof fn lemma_parse_render(j: JsonV, s: Seq<char>, i: int)
    requires
        num_free(j),
        0 <= i <= s.len(),
        text_at(s, bounded(s, i, skip_ws(s, i)), render(j)),
    ensures
        parse_value(s, i) == Some((j, bounded(s, i, skip_ws(s, i)) + render(j).len())),
    decreases j, 0int,
{
    let p = bounded(s, i, skip_ws(s, i));
    lemma_render_first(j);
    lemma_text_at_char(s, p, render(j), 0);
    reveal_strlit("null");
    reveal_strlit("true");
    reveal_strlit("false");
    reveal_strlit("[]");
    reveal_strlit("{}");
    match j {
        JsonV::Null => {
            assert(s[p] == 'n');
            assert(lit_at(s, p, "null"@)) by {
                assert(s.subrange(p, p + 4) =~= "null"@) by {
                    assert forall|k: int| 0 <= k < 4 implies s.subrange(p, p + 4)[k]
                        == "null"@[k] by {
                        lemma_text_at_char(s, p, render(j), k);
                    }
                }
            }
        },
        JsonV::Bool(b) => {
            if b {
                assert(s[p] == 't');
                assert(lit_at(s, p, "true"@)) by {
                    assert(s.subrange(p, p + 4) =~= "true"@) by {
                        assert forall|k: int| 0 <= k < 4 implies s.subrange(p, p + 4)[k]
                            == "true"@[k] by {
                            lemma_text_at_char(s, p, render(j), k);
                        }
                    }
                }
            } else {
                assert(s[p] == 'f');
                assert(lit_at(s, p, "false"@)) by {
                    assert(s.subrange(p, p + 5) =~= "false"@) by {
                        assert forall|k: int| 0 <= k < 5 implies s.subrange(p, p + 5)[k]
                            == "false"@[k] by {
                            lemma_text_at_char(s, p, render(j), k);
                        }
                    }
                }
            }
        },
        JsonV::Num(_) => {},
        JsonV::Str(t) => {
            assert(s[p] == '"');
            assert(render(j) =~= seq!['"'] + (escape_string(t) + seq!['"']));
            lemma_text_at_split(s, p, seq!['"'], escape_string(t) + seq!['"']);
            lemma_parse_escape(t, s, p + 1);
        },
        JsonV::Arr(items) => {
            assert(s[p] == '[');
            if items.len() == 0 {
                lemma_text_at_char(s, p, render(j), 1);
                assert(s[p + 1] == ']');
                lemma_skip_ws_nonws(s, p + 1);
                assert(items =~= Seq::<JsonV>::empty());
            } else {
                assert(render(j) =~= seq!['['] + (seq!['\n'] + render_items(items) + seq![
                    '\n',
                    ']',
                ]));
                lemma_text_at_split(
                    s,
                    p,
                    seq!['['],
                    seq!['\n'] + render_items(items) + seq!['\n', ']'],
                );
                lemma_parse_render_items(items, s, p + 1);
                // the branch for an empty array is not taken: after the
                // newline stands the first element, never a bracket
                lemma_render_first(items[0]);
                assert(render_items(items).len() > 0 && render_items(items)[0] == render(
                    items[0],
                )[0]) by {
                    lemma_render_items_first(items);
                }
                lemma_text_at_char(
                    s,
                    p + 1,
                    seq!['\n'] + render_items(items) + seq!['\n', ']'],
                    0,
                );
                lemma_text_at_char(
                    s,
                    p + 1,
                    seq!['\n'] + render_items(items) + seq!['\n', ']'],
                    1,
                );
                lemma_skip_ws_one(s, p + 1);
                assert(s[p + 2] != ']');
            }
        },
        JsonV::Obj(members) => {
            assert(s[p] == '{');
            if members.len() == 0 {
                lemma_text_at_char(s, p, render(j), 1);
                assert(s[p + 1] == '}');
                lemma_skip_ws_nonws(s, p + 1);
                assert(members =~= Seq::<(Seq<char>, JsonV)>::empty());
            } else {
                assert(render(j) =~= seq!['{'] + (seq!['\n'] + render_members(members) + seq![
                    '\n',
                    '}',
                ]));
                lemma_text_at_split(
                    s,
                    p,
                    seq!['{'],
                    seq!['\n'] + render_members(members) + seq!['\n', '}'],
                );
                lemma_parse_render_members(members, s, p + 1);
                assert(render_members(members).len() > 0 && render_members(members)[0] == '"') by {
                    lemma_render_members_first(members);
                }
                lemma_text_at_char(
                    s,
                    p + 1,
                    seq!['\n'] + render_members(members) + seq!['\n', '}'],
                    0,
                );
                lemma_text_at_char(
                    s,
                    p + 1,
                    seq!['\n'] + render_members(members) + seq!['\n', '}'],
                    1,
                );
                lemma_skip_ws_one(s, p + 1);
                assert(s[p + 2] != '}');
            }
        },
    }
}

proof fn lemma_render_items_first(items: Seq<JsonV>)
    requires
        items.len() > 0,
        num_free_list(items),
    ensures
        render_items(items).len() >= render(items[0]).len(),
        forall|k: int|
            0 <= k < render(items[0]).len() ==> render_items(items)[k] == render(items[0])[k],
{
    lemma_render_first(items[0]);
}

proof fn lemma_render_members_first(members: Seq<(Seq<char>, JsonV)>)
    requires
        members.len() > 0,
        num_free_obj(members),
    ensures
        render_members(members).len() > 0,
        render_members(members)[0] == '"',
{
    assert(render_string(members[0].0)[0] == '"');
}

/// Parsing the element list of a rendered non-empty array, from the newline
/// after the opening bracket through the closing bracket.
proof fn lemma_parse_render_items(items: Seq<JsonV>, s: Seq<char>, i: int)
    requires
        items.len() > 0,
        num_free_list(items),
        text_at(s, i, seq!['\n'] + render_items(items) + seq!['\n', ']']),
    ensures
        parse_items(s, i) == Some((items, i + 1 + render_items(items).len() + 2)),
    decreases items, 1int,
{
    let whole = seq!['\n'] + render_items(items) + seq!['\n', ']'];
    let head = items[0];
    lemma_render_first(head);
    let r0 = render(head);
    lemma_text_at_char(s, i, whole, 0);
    lemma_text_at_char(s, i, whole, 1);
    assert(is_ws(s[i]));
    if items.len() == 1 {
        assert(render_items(items) == r0);
        assert(whole =~= seq!['\n'] + (r0 + seq!['\n', ']']));
        lemma_text_at_split(s, i, seq!['\n'], r0 + seq!['\n', ']']);
        lemma_text_at_split(s, i + 1, r0, seq!['\n', ']']);
        assert(s[i + 1] == r0[0]);
        lemma_skip_ws_one(s, i);
        lemma_parse_render(head, s, i);
        let e0 = i + 1 + r0.len();
        assert(parse_value(s, i) == Some((head, e0)));
        lemma_text_at_char(s, e0, seq!['\n', ']'], 0);
        lemma_text_at_char(s, e0, seq!['\n', ']'], 1);
        lemma_skip_ws_one(s, e0);
        assert(s[e0 + 1] == ']');
        assert(seq![head] =~= items);
    } else {
        let rest = items.drop_first();
        let rtail = render_items(rest);
        assert(render_items(items) == r0 + seq![',', '\n'] + rtail);
        assert(whole =~= seq!['\n'] + (r0 + (seq![','] + (seq!['\n'] + rtail + seq!['\n', ']']))));
        lemma_text_at_split(
            s,
            i,
            seq!['\n'],
            r0 + (seq![','] + (seq!['\n'] + rtail + seq!['\n', ']'])),
        );
        lemma_text_at_split(s, i + 1, r0, seq![','] + (seq!['\n'] + rtail + seq!['\n', ']']));
        lemma_text_at_split(s, i + 1 + r0.len(), seq![','], seq!['\n'] + rtail + seq!['\n', ']']);
        assert(s[i + 1] == r0[0]) by {
            lemma_text_at_char(s, i + 1, r0, 0);
        }
        lemma_skip_ws_one(s, i);
        lemma_parse_render(head, s, i);
        let e0 = i + 1 + r0.len();
        assert(parse_value(s, i) == Some((head, e0)));
        lemma_text_at_char(s, e0, seq![','], 0);
        assert(s[e0] == ',');
        lemma_skip_ws_nonws(s, e0);
        lemma_parse_render_items(rest, s, e0 + 1);
        assert(seq![head] + rest =~= items);
    }
}

/// Parsing one rendered member: a newline, the key literal, a colon and a
/// space, the value, and then the text `w`.
proof fn lemma_parse_member(key: Seq<char>, val: JsonV, s: Seq<char>, i: int, w: Seq<char>)
    requires
        num_free(val),
        w.len() > 0,
        text_at(
            s,
            i,
            seq!['\n'] + (render_string(key) + (seq![':'] + (seq![' '] + (render(val) + w)))),
        ),
    ensures
        ({
            let rk = render_string(key);
            let rv = render(val);
            let e1 = i + 1 + rk.len();
            let e2 = e1 + 2 + rv.len();
            &&& skip_ws(s, i) == i + 1
            &&& i + 1 < s.len() && s[i + 1] == '"'
            &&& parse_string_body(s, i + 2) == Some((key, e1))
            &&& e1 < s.len() && s[e1] == ':' && skip_ws(s, e1) == e1
            &&& parse_value(s, e1 + 1) == Some((val, e2))
            &&& e2 < s.len() && s[e2] == w[0]
            &&& text_at(s, e2, w)
        }),
    decreases val, 1int,
{
    let rk = render_string(key);
    let rv = render(val);
    lemma_render_first(val);
    let tail1 = rk + (seq![':'] + (seq![' '] + (rv + w)));
    lemma_text_at_split(s, i, seq!['\n'], tail1);
    let tail2 = seq![':'] + (seq![' '] + (rv + w));
    lemma_text_at_split(s, i + 1, rk, tail2);
    let e1 = i + 1 + rk.len();
    let tail3 = seq![' '] + (rv + w);
    lemma_text_at_split(s, e1, seq![':'], tail3);
    lemma_text_at_split(s, e1 + 1, seq![' '], rv + w);
    lemma_text_at_split(s, e1 + 2, rv, w);
    lemma_text_at_char(s, i, seq!['\n'], 0);
    lemma_text_at_char(s, i + 1, rk, 0);
    assert(rk[0] == '"');
    lemma_skip_ws_one(s, i);
    assert(rk =~= seq!['"'] + (escape_string(key) + seq!['"']));
    lemma_text_at_split(s, i + 1, seq!['"'], escape_string(key) + seq!['"']);
    lemma_parse_escape(key, s, i + 2);
    lemma_text_at_char(s, e1, seq![':'], 0);
    lemma_skip_ws_nonws(s, e1);
    lemma_text_at_char(s, e1 + 1, seq![' '], 0);
    lemma_text_at_char(s, e1 + 2, rv, 0);
    lemma_skip_ws_one(s, e1 + 1);
    lemma_parse_render(val, s, e1 + 1);
    lemma_text_at_char(s, e1 + 2 + rv.len(), w, 0);
}

/// Parsing the member list of a rendered non-empty object, from the newline
/// after the opening brace through the closing brace.
proof fn lemma_parse_render_members(members: Seq<(Seq<char>, JsonV)>, s: Seq<char>, i: int)
    requires
        members.len() > 0,
        num_free_obj(members),
        text_at(s, i, seq!['\n'] + render_members(members) + seq!['\n', '}']),
    ensures
        parse_members(s, i) == Some((members, i + 1 + render_members(members).len() + 2)),
    decreases members, 2int,
{
    let whole = seq!['\n'] + render_members(members) + seq!['\n', '}'];
    let key = members[0].0;
    let val = members[0].1;
    let rk = render_string(key);
    let rv = render(val);
    let e1 = i + 1 + rk.len();
    let e2 = e1 + 2 + rv.len();
    if members.len() == 1 {
        let w = seq!['\n', '}'];
        assert(whole =~= seq!['\n'] + (rk + (seq![':'] + (seq![' '] + (rv + w)))));
        lemma_parse_member(key, val, s, i, w);
        lemma_text_at_char(s, e2, w, 0);
        lemma_text_at_char(s, e2, w, 1);
        lemma_skip_ws_one(s, e2);
        assert(s[e2 + 1] == '}');
        assert(seq![(key, val)] =~= members);
    } else {
        let rest = members.drop_first();
        let rtail = render_members(rest);
        assert(render_members(members) == rk + seq![':', ' '] + rv + seq![',', '\n'] + rtail);
        let w = seq![','] + (seq!['\n'] + (rtail + seq!['\n', '}']));
        assert(whole =~= seq!['\n'] + (rk + (seq![':'] + (seq![' '] + (rv + w)))));
        lemma_parse_member(key, val, s, i, w);
        lemma_text_at_char(s, e2, w, 0);
        assert(s[e2] == ',');
        lemma_skip_ws_nonws(s, e2);
        lemma_text_at_split(s, e2, seq![','], seq!['\n'] + (rtail + seq!['\n', '}']));
        assert(seq!['\n'] + (rtail + seq!['\n', '}']) =~= seq!['\n'] + rtail + seq![
            '\n',
            '}',
        ]);
        lemma_parse_render_members(rest, s, e2 + 1);
        assert(seq![(key, val)] + rest =~= members);
    }
}

/// The round trip: a whole rendered tree parses back to itself.
pub proof fn lemma_json_round_trip(j: JsonV)
    requires
        num_free(j),
    ensures
        json_of(render(j)) == Some(j),
{
    let s = render(j);
    lemma_render_first(j);
    lemma_skip_ws_nonws(s, 0);
    assert(text_at(s, 0, s)) by {
        assert(s.subrange(0, s.len() as int) =~= s);
    }
    lemma_parse_render(j, s, 0);
    assert(parse_value(s, 0) == Some((j, s.len() as int)));
    lemma_skip_ws_nonws(s, s.len() as int);
}

} // verus!
