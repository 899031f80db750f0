//! The person record document: how a person is laid down as a JSON tree,
//! and how a parsed tree is read back. Reading accepts the members in any
//! order, ignores unknown members, and lets the quotes member default to an
//! empty sequence, for records written before quotes existed.
use vstd::prelude::*;

use crate::errors::StoreError;
use crate::json::{render, json_of, json_view, json_view_list, json_view_obj, lemma_json_view_list,
    lemma_json_view_obj, lemma_json_view_list_snoc, Json, JsonV};
use crate::json_laws::{num_free, num_free_list, num_free_obj, lemma_json_round_trip};
use crate::models::{Person, PersonInfo, PersonV, PersonInfoV, Quote, QuoteV};

verus! {

// ------------------------------------------------------------------
// Writing: the record tree of a person
// ------------------------------------------------------------------
pub open spec fn opt_json(o: Option<Seq<char>>) -> JsonV {
    match o {
        None => JsonV::Null,
        Some(s) => JsonV::Str(s),
    }
}

pub open spec fn info_json(e: PersonInfoV) -> JsonV {
    JsonV::Obj(
        seq![
            ("id"@, JsonV::Str(e.id)),
            ("info_type"@, JsonV::Str(e.info_type)),
            ("value"@, JsonV::Str(e.value)),
            ("created_at"@, JsonV::Str(e.created_at)),
        ],
    )
}

pub open spec fn quote_json(q: QuoteV) -> JsonV {
    JsonV::Obj(
        seq![
            ("id"@, JsonV::Str(q.id)),
            ("person_id"@, JsonV::Str(q.person_id)),
            ("quote"@, JsonV::Str(q.quote)),
            ("date"@, JsonV::Str(q.date)),
            ("time"@, opt_json(q.time)),
            ("place"@, opt_json(q.place)),
            ("created_at"@, JsonV::Str(q.created_at)),
        ],
    )
}

pub open spec fn person_json(p: PersonV) -> JsonV {
    JsonV::Obj(
        seq![
            ("id"@, JsonV::Str(p.id)),
            ("name"@, JsonV::Str(p.name)),
            ("created_at"@, JsonV::Str(p.created_at)),
            ("updated_at"@, JsonV::Str(p.updated_at)),
            ("notes"@, JsonV::Str(p.notes)),
            ("tags"@, JsonV::Arr(p.tags.map_values(|t: Seq<char>| JsonV::Str(t)))),
            ("information"@, JsonV::Arr(p.information.map_values(|e: PersonInfoV| info_json(e)))),
            ("quotes"@, JsonV::Arr(p.quotes.map_values(|q: QuoteV| quote_json(q)))),
        ],
    )
}

/// The full record text of a person.
pub open spec fn render_record(p: PersonV) -> Seq<char> {
    render(person_json(p))
}

// ------------------------------------------------------------------
// Reading: a person from a parsed tree
// ------------------------------------------------------------------
/// The value under the first member named `k`, if any.
pub open spec fn obj_lookup(ms: Seq<(Seq<char>, JsonV)>, k: Seq<char>) -> Option<JsonV>
    decreases ms,
{
    if ms.len() == 0 {
        None
    } else if ms[0].0 == k {
        Some(ms[0].1)
    } else {
        obj_lookup(ms.drop_first(), k)
    }
}

pub open spec fn lookup_str(ms: Seq<(Seq<char>, JsonV)>, k: Seq<char>) -> Option<Seq<char>> {
    match obj_lookup(ms, k) {
        Some(JsonV::Str(s)) => Some(s),
        _ => None,
    }
}

/// A string or a null, as an optional text.
pub open spec fn opt_from_json(v: JsonV) -> Option<Option<Seq<char>>> {
    match v {
        JsonV::Null => Some(None),
        JsonV::Str(s) => Some(Some(s)),
        _ => None,
    }
}

pub open spec fn strs_of(vs: Seq<JsonV>) -> Option<Seq<Seq<char>>>
    decreases vs,
{
    if vs.len() == 0 {
        Some(Seq::empty())
    } else {
        match vs[0] {
            JsonV::Str(s) => match strs_of(vs.drop_first()) {
                Some(rest) => Some(seq![s] + rest),
                None => None,
            },
            _ => None,
        }
    }
}

pub open spec fn info_from_json(j: JsonV) -> Option<PersonInfoV> {
    match j {
        JsonV::Obj(ms) => match (
            lookup_str(ms, "id"@),
            lookup_str(ms, "info_type"@),
            lookup_str(ms, "value"@),
            lookup_str(ms, "created_at"@),
        ) {
            (Some(id), Some(info_type), Some(value), Some(created_at)) => Some(
                PersonInfoV { id, info_type, value, created_at },
            ),
            _ => None,
        },
        _ => None,
    }
}

pub open spec fn infos_of(vs: Seq<JsonV>) -> Option<Seq<PersonInfoV>>
    decreases vs,
{
    if vs.len() == 0 {
        Some(Seq::empty())
    } else {
        match info_from_json(vs[0]) {
            Some(e) => match infos_of(vs.drop_first()) {
                Some(rest) => Some(seq![e] + rest),
                None => None,
            },
            None => None,
        }
    }
}

pub open spec fn quote_from_json(j: JsonV) -> Option<QuoteV> {
    match j {
        JsonV::Obj(ms) => match (
            lookup_str(ms, "id"@),
            lookup_str(ms, "person_id"@),
            lookup_str(ms, "quote"@),
            lookup_str(ms, "date"@),
            lookup_str(ms, "created_at"@),
        ) {
            (Some(id), Some(person_id), Some(quote), Some(date), Some(created_at)) => match (
                obj_lookup(ms, "time"@),
                obj_lookup(ms, "place"@),
            ) {
                (Some(tv), Some(pv)) => match (opt_from_json(tv), opt_from_json(pv)) {
                    (Some(time), Some(place)) => Some(
                        QuoteV { id, person_id, quote, date, time, place, created_at },
                    ),
                    _ => None,
                },
                _ => None,
            },
            _ => None,
        },
        _ => None,
    }
}

pub open spec fn quotes_of(vs: Seq<JsonV>) -> Option<Seq<QuoteV>>
    decreases vs,
{
    if vs.len() == 0 {
        Some(Seq::empty())
    } else {
        match quote_from_json(vs[0]) {
            Some(q) => match quotes_of(vs.drop_first()) {
                Some(rest) => Some(seq![q] + rest),
                None => None,
            },
            None => None,
        }
    }
}

pub open spec fn person_from_json(j: JsonV) -> Option<PersonV> {
    match j {
        JsonV::Obj(ms) => match (
            lookup_str(ms, "id"@),
            lookup_str(ms, "name"@),
            lookup_str(ms, "created_at"@),
            lookup_str(ms, "updated_at"@),
            lookup_str(ms, "notes"@),
        ) {
            (Some(id), Some(name), Some(created_at), Some(updated_at), Some(notes)) => match (
                obj_lookup(ms, "tags"@),
                obj_lookup(ms, "information"@),
            ) {
                (Some(JsonV::Arr(tvs)), Some(JsonV::Arr(ivs))) => match (
                    strs_of(tvs),
                    infos_of(ivs),
                ) {
                    (Some(tags), Some(information)) => match obj_lookup(ms, "quotes"@) {
                        None => Some(
                            PersonV {
                                id,
                                name,
                                created_at,
                                updated_at,
                                notes,
                                tags,
                                information,
                                quotes: Seq::empty(),
                            },
                        ),
                        Some(JsonV::Arr(qvs)) => match quotes_of(qvs) {
                            Some(quotes) => Some(
                                PersonV {
                                    id,
                                    name,
                                    created_at,
                                    updated_at,
                                    notes,
                                    tags,
                                    information,
                                    quotes,
                                },
                            ),
                            None => None,
                        },
                        Some(_) => None,
                    },
                    _ => None,
                },
                _ => None,
            },
            _ => None,
        },
        _ => None,
    }
}

/// The person a whole record text stands for, if it is well-formed.
pub open spec fn parse_record(s: Seq<char>) -> Option<PersonV> {
    match json_of(s) {
        Some(j) => person_from_json(j),
        None => None,
    }
}

// ------------------------------------------------------------------
// The record round trip
// ------------------------------------------------------------------
proof fn lemma_num_free_list_all(vs: Seq<JsonV>)
    requires
        forall|k: int| 0 <= k < vs.len() ==> num_free(#[trigger] vs[k]),
    ensures
        num_free_list(vs),
    decreases vs,
{
    if vs.len() > 0 {
        lemma_num_free_list_all(vs.drop_first());
    }
}

proof fn lemma_num_free_obj_all(ms: Seq<(Seq<char>, JsonV)>)
    requires
        forall|k: int| 0 <= k < ms.len() ==> num_free(#[trigger] ms[k].1),
    ensures
        num_free_obj(ms),
    decreases ms,
{
    if ms.len() > 0 {
        lemma_num_free_obj_all(ms.drop_first());
    }
}

proof fn lemma_num_free_person(p: PersonV)
    ensures
        num_free(person_json(p)),
{
    let tags = p.tags.map_values(|t: Seq<char>| JsonV::Str(t));
    let infos = p.information.map_values(|e: PersonInfoV| info_json(e));
    let quotes = p.quotes.map_values(|q: QuoteV| quote_json(q));
    assert forall|k: int| 0 <= k < tags.len() implies num_free(#[trigger] tags[k]) by {}
    lemma_num_free_list_all(tags);
    assert forall|k: int| 0 <= k < infos.len() implies num_free(#[trigger] infos[k]) by {
        lemma_num_free_obj_all(
            seq![
                ("id"@, JsonV::Str(p.information[k].id)),
                ("info_type"@, JsonV::Str(p.information[k].info_type)),
                ("value"@, JsonV::Str(p.information[k].value)),
                ("created_at"@, JsonV::Str(p.information[k].created_at)),
            ],
        );
    }
    lemma_num_free_list_all(infos);
    assert forall|k: int| 0 <= k < quotes.len() implies num_free(#[trigger] quotes[k]) by {
        let q = p.quotes[k];
        assert(num_free(opt_json(q.time)));
        assert(num_free(opt_json(q.place)));
        lemma_num_free_obj_all(
            seq![
                ("id"@, JsonV::Str(q.id)),
                ("person_id"@, JsonV::Str(q.person_id)),
                ("quote"@, JsonV::Str(q.quote)),
                ("date"@, JsonV::Str(q.date)),
                ("time"@, opt_json(q.time)),
                ("place"@, opt_json(q.place)),
                ("created_at"@, JsonV::Str(q.created_at)),
            ],
        );
    }
    lemma_num_free_list_all(quotes);
    let ms = seq![
        ("id"@, JsonV::Str(p.id)),
        ("name"@, JsonV::Str(p.name)),
        ("created_at"@, JsonV::Str(p.created_at)),
        ("updated_at"@, JsonV::Str(p.updated_at)),
        ("notes"@, JsonV::Str(p.notes)),
        ("tags"@, JsonV::Arr(tags)),
        ("information"@, JsonV::Arr(infos)),
        ("quotes"@, JsonV::Arr(quotes)),
    ];
    assert forall|k: int| 0 <= k < ms.len() implies num_free(#[trigger] ms[k].1) by {}
    lemma_num_free_obj_all(ms);
}

proof fn lemma_info_extract(e: PersonInfoV)
    ensures
        info_from_json(info_json(e)) == Some(e),
{
    reveal_with_fuel(obj_lookup, 6);
    reveal_strlit("id");
    reveal_strlit("info_type");
    reveal_strlit("value");
    reveal_strlit("created_at");
    let ms = seq![
        ("id"@, JsonV::Str(e.id)),
        ("info_type"@, JsonV::Str(e.info_type)),
        ("value"@, JsonV::Str(e.value)),
        ("created_at"@, JsonV::Str(e.created_at)),
    ];
    let ms1 = ms.drop_first();
    let ms2 = ms1.drop_first();
    let ms3 = ms2.drop_first();
    assert(ms1 =~= seq![
        ("info_type"@, JsonV::Str(e.info_type)),
        ("value"@, JsonV::Str(e.value)),
        ("created_at"@, JsonV::Str(e.created_at)),
    ]);
    assert(ms2 =~= seq![("value"@, JsonV::Str(e.value)), ("created_at"@, JsonV::Str(e.created_at))]);
    assert(ms3 =~= seq![("created_at"@, JsonV::Str(e.created_at))]);
    assert("id"@.len() == 2 && "info_type"@.len() == 9 && "value"@.len() == 5
        && "created_at"@.len() == 10);
    assert("id"@ != "info_type"@ && "id"@ != "value"@ && "id"@ != "created_at"@);
    assert("info_type"@ != "value"@ && "info_type"@ != "created_at"@);
    assert("value"@ != "created_at"@);
    assert(lookup_str(ms, "id"@) == Some(e.id));
    assert(lookup_str(ms, "info_type"@) == Some(e.info_type));
    assert(lookup_str(ms, "value"@) == Some(e.value));
    assert(lookup_str(ms, "created_at"@) == Some(e.created_at));
}

proof fn lemma_quote_extract(q: QuoteV)
    ensures
        quote_from_json(quote_json(q)) == Some(q),
{
    reveal_with_fuel(obj_lookup, 9);
    reveal_strlit("id");
    reveal_strlit("person_id");
    reveal_strlit("quote");
    reveal_strlit("date");
    reveal_strlit("time");
    reveal_strlit("place");
    reveal_strlit("created_at");
    let ms = seq![
        ("id"@, JsonV::Str(q.id)),
        ("person_id"@, JsonV::Str(q.person_id)),
        ("quote"@, JsonV::Str(q.quote)),
        ("date"@, JsonV::Str(q.date)),
        ("time"@, opt_json(q.time)),
        ("place"@, opt_json(q.place)),
        ("created_at"@, JsonV::Str(q.created_at)),
    ];
    let ms1 = ms.drop_first();
    let ms2 = ms1.drop_first();
    let ms3 = ms2.drop_first();
    let ms4 = ms3.drop_first();
    let ms5 = ms4.drop_first();
    let ms6 = ms5.drop_first();
    assert(ms1 =~= ms.subrange(1, 7));
    assert(ms2 =~= ms.subrange(2, 7));
    assert(ms3 =~= ms.subrange(3, 7));
    assert(ms4 =~= ms.subrange(4, 7));
    assert(ms5 =~= ms.subrange(5, 7));
    assert(ms6 =~= ms.subrange(6, 7));
    assert("id"@.len() == 2 && "person_id"@.len() == 9 && "quote"@.len() == 5 && "date"@.len() == 4
        && "time"@.len() == 4 && "place"@.len() == 5 && "created_at"@.len() == 10);
    assert("date"@[0] == 'd' && "time"@[0] == 't');
    assert("quote"@[0] == 'q' && "place"@[0] == 'p');
    assert(lookup_str(ms, "id"@) == Some(q.id));
    assert(lookup_str(ms, "person_id"@) == Some(q.person_id));
    assert(lookup_str(ms, "quote"@) == Some(q.quote));
    assert(lookup_str(ms, "date"@) == Some(q.date));
    assert(obj_lookup(ms, "time"@) == Some(opt_json(q.time)));
    assert(obj_lookup(ms, "place"@) == Some(opt_json(q.place)));
    assert(lookup_str(ms, "created_at"@) == Some(q.created_at));
    assert(opt_from_json(opt_json(q.time)) == Some(q.time));
    assert(opt_from_json(opt_json(q.place)) == Some(q.place));
}

proof fn lemma_strs_extract(ts: Seq<Seq<char>>)
    ensures
        strs_of(ts.map_values(|t: Seq<char>| JsonV::Str(t))) == Some(ts),
    decreases ts,
{
    let vs = ts.map_values(|t: Seq<char>| JsonV::Str(t));
    if ts.len() == 0 {
        assert(ts =~= Seq::<Seq<char>>::empty());
    } else {
        lemma_strs_extract(ts.drop_first());
        assert(vs.drop_first() =~= ts.drop_first().map_values(|t: Seq<char>| JsonV::Str(t)));
        assert(seq![ts[0]] + ts.drop_first() =~= ts);
    }
}

proof fn lemma_infos_extract(es: Seq<PersonInfoV>)
    ensures
        infos_of(es.map_values(|e: PersonInfoV| info_json(e))) == Some(es),
    decreases es,
{
    let vs = es.map_values(|e: PersonInfoV| info_json(e));
    if es.len() == 0 {
        assert(es =~= Seq::<PersonInfoV>::empty());
    } else {
        lemma_info_extract(es[0]);
        lemma_infos_extract(es.drop_first());
        assert(vs.drop_first() =~= es.drop_first().map_values(|e: PersonInfoV| info_json(e)));
        assert(seq![es[0]] + es.drop_first() =~= es);
    }
}

proof fn lemma_quotes_extract(qs: Seq<QuoteV>)
    ensures
        quotes_of(qs.map_values(|q: QuoteV| quote_json(q))) == Some(qs),
    decreases qs,
{
    let vs = qs.map_values(|q: QuoteV| quote_json(q));
    if qs.len() == 0 {
        assert(qs =~= Seq::<QuoteV>::empty());
    } else {
        lemma_quote_extract(qs[0]);
        lemma_quotes_extract(qs.drop_first());
        assert(vs.drop_first() =~= qs.drop_first().map_values(|q: QuoteV| quote_json(q)));
        assert(seq![qs[0]] + qs.drop_first() =~= qs);
    }
}

/// Reading back the record tree of a person gives the person.
proof fn lemma_person_extract(p: PersonV)
    ensures
        person_from_json(person_json(p)) == Some(p),
{
    reveal_with_fuel(obj_lookup, 10);
    reveal_strlit("id");
    reveal_strlit("name");
    reveal_strlit("created_at");
    reveal_strlit("updated_at");
    reveal_strlit("notes");
    reveal_strlit("tags");
    reveal_strlit("information");
    reveal_strlit("quotes");
    let tags = p.tags.map_values(|t: Seq<char>| JsonV::Str(t));
    let infos = p.information.map_values(|e: PersonInfoV| info_json(e));
    let quotes = p.quotes.map_values(|q: QuoteV| quote_json(q));
    let ms = seq![
        ("id"@, JsonV::Str(p.id)),
        ("name"@, JsonV::Str(p.name)),
        ("created_at"@, JsonV::Str(p.created_at)),
        ("updated_at"@, JsonV::Str(p.updated_at)),
        ("notes"@, JsonV::Str(p.notes)),
        ("tags"@, JsonV::Arr(tags)),
        ("information"@, JsonV::Arr(infos)),
        ("quotes"@, JsonV::Arr(quotes)),
    ];
    let ms1 = ms.drop_first();
    let ms2 = ms1.drop_first();
    let ms3 = ms2.drop_first();
    let ms4 = ms3.drop_first();
    let ms5 = ms4.drop_first();
    let ms6 = ms5.drop_first();
    let ms7 = ms6.drop_first();
    assert(ms1 =~= ms.subrange(1, 8));
    assert(ms2 =~= ms.subrange(2, 8));
    assert(ms3 =~= ms.subrange(3, 8));
    assert(ms4 =~= ms.subrange(4, 8));
    assert(ms5 =~= ms.subrange(5, 8));
    assert(ms6 =~= ms.subrange(6, 8));
    assert(ms7 =~= ms.subrange(7, 8));
    assert("id"@.len() == 2 && "name"@.len() == 4 && "created_at"@.len() == 10
        && "updated_at"@.len() == 10 && "notes"@.len() == 5 && "tags"@.len() == 4
        && "information"@.len() == 11 && "quotes"@.len() == 6);
    assert("name"@[0] == 'n' && "tags"@[0] == 't');
    assert("created_at"@[0] == 'c' && "updated_at"@[0] == 'u');
    assert("notes"@[0] == 'n' && "quotes"@[0] == 'q');
    assert(lookup_str(ms, "id"@) == Some(p.id));
    assert(lookup_str(ms, "name"@) == Some(p.name));
    assert(lookup_str(ms, "created_at"@) == Some(p.created_at));
    assert(lookup_str(ms, "updated_at"@) == Some(p.updated_at));
    assert(lookup_str(ms, "notes"@) == Some(p.notes));
    assert(obj_lookup(ms, "tags"@) == Some(JsonV::Arr(tags)));
    assert(obj_lookup(ms, "information"@) == Some(JsonV::Arr(infos)));
    assert(obj_lookup(ms, "quotes"@) == Some(JsonV::Arr(quotes)));
    lemma_strs_extract(p.tags);
    lemma_infos_extract(p.information);
    lemma_quotes_extract(p.quotes);
}

/// The record round trip: the rendered record of any person parses back to
/// that person, field for field.
pub proof fn lemma_record_round_trip(p: PersonV)
    ensures
        parse_record(render_record(p)) == Some(p),
{
    lemma_num_free_person(p);
    lemma_json_round_trip(person_json(p));
    lemma_person_extract(p);
}

/// The record round trip through bytes: the rendered record text encodes to
/// valid UTF-8, and decoding those bytes and parsing them gives the person
/// back — so a record file carried byte-for-byte through an archive
/// reconstructs its person exactly.
pub proof fn lemma_record_bytes_round_trip(p: PersonV)
    ensures
        vstd::utf8::valid_utf8(vstd::utf8::encode_utf8(render_record(p))),
        parse_record(vstd::utf8::decode_utf8(vstd::utf8::encode_utf8(render_record(p)))) == Some(
            p,
        ),
{
    broadcast use vstd::utf8::encode_utf8_valid_utf8;
    broadcast use vstd::utf8::encode_utf8_decode_utf8;

    lemma_record_round_trip(p);
}

// ------------------------------------------------------------------
// Executable writing
// ------------------------------------------------------------------
fn key_chars(k: &str) -> (v: Vec<char>)
    ensures
        v@ == k@,
{
    crate::chars::str_chars(k)
}

fn string_json(s: &String) -> (j: Json)
    ensures
        j@ == JsonV::Str(s@),
{
    Json::Str(crate::chars::str_chars(s.as_str()))
}

fn opt_string_json(o: &Option<String>) -> (j: Json)
    ensures
        j@ == opt_json(crate::models::opt_view(*o)),
{
    match o {
        Some(s) => string_json(s),
        None => Json::Null,
    }
}

fn info_to_json(e: &PersonInfo) -> (j: Json)
    ensures
        j@ == info_json(e@),
{
    let mut ms: Vec<(Vec<char>, Json)> = Vec::new();
    ms.push((key_chars("id"), string_json(&e.id)));
    ms.push((key_chars("info_type"), string_json(&e.info_type)));
    ms.push((key_chars("value"), string_json(&e.value)));
    ms.push((key_chars("created_at"), string_json(&e.created_at)));
    proof {
        lemma_json_view_obj(ms@);
        assert(json_view_obj(ms@) =~= seq![
            ("id"@, JsonV::Str(e.id@)),
            ("info_type"@, JsonV::Str(e.info_type@)),
            ("value"@, JsonV::Str(e.value@)),
            ("created_at"@, JsonV::Str(e.created_at@)),
        ]);
    }
    Json::Obj(ms)
}

fn quote_to_json(q: &Quote) -> (j: Json)
    ensures
        j@ == quote_json(q@),
{
    let mut ms: Vec<(Vec<char>, Json)> = Vec::new();
    ms.push((key_chars("id"), string_json(&q.id)));
    ms.push((key_chars("person_id"), string_json(&q.person_id)));
    ms.push((key_chars("quote"), string_json(&q.quote)));
    ms.push((key_chars("date"), string_json(&q.date)));
    ms.push((key_chars("time"), opt_string_json(&q.time)));
    ms.push((key_chars("place"), opt_string_json(&q.place)));
    ms.push((key_chars("created_at"), string_json(&q.created_at)));
    proof {
        lemma_json_view_obj(ms@);
        assert(json_view_obj(ms@) =~= seq![
            ("id"@, JsonV::Str(q.id@)),
            ("person_id"@, JsonV::Str(q.person_id@)),
            ("quote"@, JsonV::Str(q.quote@)),
            ("date"@, JsonV::Str(q.date@)),
            ("time"@, opt_json(crate::models::opt_view(q.time))),
            ("place"@, opt_json(crate::models::opt_view(q.place))),
            ("created_at"@, JsonV::Str(q.created_at@)),
        ]);
    }
    Json::Obj(ms)
}

fn person_to_json(p: &Person) -> (j: Json)
    ensures
        j@ == person_json(p@),
{
    let mut tvs: Vec<Json> = Vec::new();
    let mut i: usize = 0;
    while i < p.tags.len()
        invariant
            i <= p.tags@.len(),
            json_view_list(tvs@) == p@.tags.subrange(0, i as int).map_values(
                |t: Seq<char>| JsonV::Str(t),
            ),
            tvs@.len() == i,
        decreases p.tags@.len() - i,
    {
        let ghost prev = tvs@;
        tvs.push(string_json(&p.tags[i]));
        i = i + 1;
        proof {
            lemma_json_view_list_snoc(tvs@);
            assert(tvs@.drop_last() =~= prev);
            assert(json_view_list(tvs@) =~= p@.tags.subrange(0, i as int).map_values(
                |t: Seq<char>| JsonV::Str(t),
            ));
        }
    }
    let mut ivs: Vec<Json> = Vec::new();
    let mut k: usize = 0;
    while k < p.information.len()
        invariant
            k <= p.information@.len(),
            json_view_list(ivs@) == p@.information.subrange(0, k as int).map_values(
                |e: PersonInfoV| info_json(e),
            ),
            ivs@.len() == k,
        decreases p.information@.len() - k,
    {
        let ghost prev = ivs@;
        ivs.push(info_to_json(&p.information[k]));
        k = k + 1;
        proof {
            lemma_json_view_list_snoc(ivs@);
            assert(ivs@.drop_last() =~= prev);
            assert(json_view_list(ivs@) =~= p@.information.subrange(0, k as int).map_values(
                |e: PersonInfoV| info_json(e),
            ));
        }
    }
    let mut qvs: Vec<Json> = Vec::new();
    let mut m: usize = 0;
    while m < p.quotes.len()
        invariant
            m <= p.quotes@.len(),
            json_view_list(qvs@) == p@.quotes.subrange(0, m as int).map_values(
                |q: QuoteV| quote_json(q),
            ),
            qvs@.len() == m,
        decreases p.quotes@.len() - m,
    {
        let ghost prev = qvs@;
        qvs.push(quote_to_json(&p.quotes[m]));
        m = m + 1;
        proof {
            lemma_json_view_list_snoc(qvs@);
            assert(qvs@.drop_last() =~= prev);
            assert(json_view_list(qvs@) =~= p@.quotes.subrange(0, m as int).map_values(
                |q: QuoteV| quote_json(q),
            ));
        }
    }
    proof {
        assert(p@.tags.subrange(0, p.tags@.len() as int) =~= p@.tags);
        assert(p@.information.subrange(0, p.information@.len() as int) =~= p@.information);
        assert(p@.quotes.subrange(0, p.quotes@.len() as int) =~= p@.quotes);
    }
    let mut ms: Vec<(Vec<char>, Json)> = Vec::new();
    ms.push((key_chars("id"), string_json(&p.id)));
    ms.push((key_chars("name"), string_json(&p.name)));
    ms.push((key_chars("created_at"), string_json(&p.created_at)));
    ms.push((key_chars("updated_at"), string_json(&p.updated_at)));
    ms.push((key_chars("notes"), string_json(&p.notes)));
    ms.push((key_chars("tags"), Json::Arr(tvs)));
    ms.push((key_chars("information"), Json::Arr(ivs)));
    ms.push((key_chars("quotes"), Json::Arr(qvs)));
    proof {
        lemma_json_view_obj(ms@);
        assert(json_view_obj(ms@) =~= seq![
            ("id"@, JsonV::Str(p.id@)),
            ("name"@, JsonV::Str(p.name@)),
            ("created_at"@, JsonV::Str(p.created_at@)),
            ("updated_at"@, JsonV::Str(p.updated_at@)),
            ("notes"@, JsonV::Str(p.notes@)),
            ("tags"@, JsonV::Arr(p@.tags.map_values(|t: Seq<char>| JsonV::Str(t)))),
            ("information"@, JsonV::Arr(p@.information.map_values(|e: PersonInfoV| info_json(e)))),
            ("quotes"@, JsonV::Arr(p@.quotes.map_values(|q: QuoteV| quote_json(q)))),
        ]);
    }
    Json::Obj(ms)
}

/// Lay a person down as its record text.
pub fn render_person(p: &Person) -> (s: String)
    ensures
        s@ == render_record(p@),
{
    let j = person_to_json(p);
    crate::json::render_json(&j)
}

// ------------------------------------------------------------------
// Executable reading
// ------------------------------------------------------------------
/// Index of the first member named `k`, mirroring `obj_lookup`.
fn lookup_index(ms: &Vec<(Vec<char>, Json)>, k: &str) -> (r: Option<usize>)
    ensures
        match r {
            Some(ix) => ix < ms@.len() && ms@[ix as int].0@ == k@ && obj_lookup(
                json_view_obj(ms@),
                k@,
            ) == Some(json_view(ms@[ix as int].1)),
            None => obj_lookup(json_view_obj(ms@), k@) is None,
        },
{
    proof {
        lemma_json_view_obj(ms@);
    }
    let ghost full = json_view_obj(ms@);
    proof {
        assert(full.subrange(0, full.len() as int) =~= full);
    }
    let mut i: usize = 0;
    while i < ms.len()
        invariant
            i <= ms@.len(),
            full == json_view_obj(ms@),
            full.len() == ms@.len(),
            forall|x: int|
                0 <= x < ms@.len() ==> #[trigger] full[x] == (ms@[x].0@, json_view(ms@[x].1)),
            obj_lookup(full, k@) == obj_lookup(full.subrange(i as int, full.len() as int), k@),
        decreases ms@.len() - i,
    {
        let hit = crate::chars::chars_eq_str(&ms[i].0, k);
        proof {
            let tail = full.subrange(i as int, full.len() as int);
            assert(tail[0] == full[i as int]);
            if ms@[i as int].0@ != k@ {
                assert(tail.drop_first() =~= full.subrange(i + 1, full.len() as int));
            }
        }
        if hit {
            return Some(i);
        }
        i = i + 1;
    }
    proof {
        assert(full.subrange(full.len() as int, full.len() as int) =~= Seq::<
            (Seq<char>, JsonV),
        >::empty());
    }
    None
}

/// The text under the first member named `k`, when it is a string.
fn get_str(ms: &Vec<(Vec<char>, Json)>, k: &str) -> (r: Option<String>)
    ensures
        match r {
            Some(s) => lookup_str(json_view_obj(ms@), k@) == Some(s@),
            None => lookup_str(json_view_obj(ms@), k@) is None,
        },
{
    match lookup_index(ms, k) {
        Some(ix) => match &ms[ix].1 {
            Json::Str(cs) => Some(crate::chars::chars_string(cs)),
            _ => None,
        },
        None => None,
    }
}

fn strs_from(vs: &Vec<Json>) -> (r: Option<Vec<String>>)
    ensures
        match r {
            Some(ts) => strs_of(json_view_list(vs@)) == Some(
                ts@.map_values(|s: String| s@),
            ),
            None => strs_of(json_view_list(vs@)) is None,
        },
{
    proof {
        lemma_json_view_list(vs@);
    }
    let ghost full = json_view_list(vs@);
    proof {
        assert(full.subrange(0, full.len() as int) =~= full);
    }
    let mut out: Vec<String> = Vec::new();
    let mut i: usize = 0;
    while i < vs.len()
        invariant
            i <= vs@.len(),
            full == json_view_list(vs@),
            full.len() == vs@.len(),
            forall|x: int| 0 <= x < vs@.len() ==> #[trigger] full[x] == json_view(vs@[x]),
            strs_of(full) == match strs_of(full.subrange(i as int, full.len() as int)) {
                Some(rest) => Some(out@.map_values(|s: String| s@) + rest),
                None => None,
            },
        decreases vs@.len() - i,
    {
        let ghost tail = full.subrange(i as int, full.len() as int);
        proof {
            assert(tail[0] == full[i as int]);
            assert(tail.drop_first() =~= full.subrange(i + 1, full.len() as int));
        }
        match &vs[i] {
            Json::Str(cs) => {
                let ghost prev = out@;
                out.push(crate::chars::chars_string(cs));
                i = i + 1;
                proof {
                    assert forall|rest: Seq<Seq<char>>|
                        prev.map_values(|s: String| s@) + (seq![cs@] + rest) =~= out@.map_values(
                            |s: String| s@,
                        ) + rest by {}
                }
            },
            _ => {
                return None;
            },
        }
    }
    proof {
        assert(full.subrange(full.len() as int, full.len() as int) =~= Seq::<JsonV>::empty());
        assert(out@.map_values(|s: String| s@) + Seq::<Seq<char>>::empty() =~= out@.map_values(
            |s: String| s@,
        ));
    }
    Some(out)
}

fn info_from(j: &Json) -> (r: Option<PersonInfo>)
    ensures
        match r {
            Some(e) => info_from_json(j@) == Some(e@),
            None => info_from_json(j@) is None,
        },
{
    match j {
        Json::Obj(ms) => {
            let id = get_str(ms, "id");
            let info_type = get_str(ms, "info_type");
            let value = get_str(ms, "value");
            let created_at = get_str(ms, "created_at");
            match (id, info_type, value, created_at) {
                (Some(id), Some(info_type), Some(value), Some(created_at)) => Some(
                    PersonInfo { id, info_type, value, created_at },
                ),
                _ => None,
            }
        },
        _ => None,
    }
}

fn opt_str_from(v: &Json) -> (r: Option<Option<String>>)
    ensures
        match r {
            Some(o) => opt_from_json(v@) == Some(crate::models::opt_view(o)),
            None => opt_from_json(v@) is None,
        },
{
    match v {
        Json::Null => Some(None),
        Json::Str(cs) => Some(Some(crate::chars::chars_string(cs))),
        _ => None,
    }
}

fn quote_from(j: &Json) -> (r: Option<Quote>)
    ensures
        match r {
            Some(q) => quote_from_json(j@) == Some(q@),
            None => quote_from_json(j@) is None,
        },
{
    match j {
        Json::Obj(ms) => {
            let id = get_str(ms, "id");
            let person_id = get_str(ms, "person_id");
            let quote = get_str(ms, "quote");
            let date = get_str(ms, "date");
            let created_at = get_str(ms, "created_at");
            match (id, person_id, quote, date, created_at) {
                (Some(id), Some(person_id), Some(quote), Some(date), Some(created_at)) => {
                    let tix = lookup_index(ms, "time");
                    let pix = lookup_index(ms, "place");
                    match (tix, pix) {
                        (Some(tix), Some(pix)) => {
                            let time = opt_str_from(&ms[tix].1);
                            let place = opt_str_from(&ms[pix].1);
                            match (time, place) {
                                (Some(time), Some(place)) => Some(
                                    Quote { id, person_id, quote, date, time, place, created_at },
                                ),
                                _ => None,
                            }
                        },
                        _ => None,
                    }
                },
                _ => None,
            }
        },
        _ => None,
    }
}

fn infos_from(vs: &Vec<Json>) -> (r: Option<Vec<PersonInfo>>)
    ensures
        match r {
            Some(es) => infos_of(json_view_list(vs@)) == Some(
                es@.map_values(|e: PersonInfo| e@),
            ),
            None => infos_of(json_view_list(vs@)) is None,
        },
{
    proof {
        lemma_json_view_list(vs@);
    }
    let ghost full = json_view_list(vs@);
    proof {
        assert(full.subrange(0, full.len() as int) =~= full);
    }
    let mut out: Vec<PersonInfo> = Vec::new();
    let mut i: usize = 0;
    while i < vs.len()
        invariant
            i <= vs@.len(),
            full == json_view_list(vs@),
            full.len() == vs@.len(),
            forall|x: int| 0 <= x < vs@.len() ==> #[trigger] full[x] == json_view(vs@[x]),
            infos_of(full) == match infos_of(full.subrange(i as int, full.len() as int)) {
                Some(rest) => Some(out@.map_values(|e: PersonInfo| e@) + rest),
                None => None,
            },
        decreases vs@.len() - i,
    {
        let ghost tail = full.subrange(i as int, full.len() as int);
        proof {
            assert(tail[0] == full[i as int]);
            assert(tail.drop_first() =~= full.subrange(i + 1, full.len() as int));
        }
        match info_from(&vs[i]) {
            Some(e) => {
                let ghost prev = out@;
                let ghost ev = e@;
                out.push(e);
                i = i + 1;
                proof {
                    assert forall|rest: Seq<PersonInfoV>|
                        prev.map_values(|e: PersonInfo| e@) + (seq![ev] + rest) =~= out@.map_values(
                            |e: PersonInfo| e@,
                        ) + rest by {}
                }
            },
            None => {
                return None;
            },
        }
    }
    proof {
        assert(full.subrange(full.len() as int, full.len() as int) =~= Seq::<JsonV>::empty());
        assert(out@.map_values(|e: PersonInfo| e@) + Seq::<PersonInfoV>::empty() =~= out@.map_values(
            |e: PersonInfo| e@,
        ));
    }
    Some(out)
}

fn quotes_from(vs: &Vec<Json>) -> (r: Option<Vec<Quote>>)
    ensures
        match r {
            Some(qs) => quotes_of(json_view_list(vs@)) == Some(
                qs@.map_values(|q: Quote| q@),
            ),
            None => quotes_of(json_view_list(vs@)) is None,
        },
{
    proof {
        lemma_json_view_list(vs@);
    }
    let ghost full = json_view_list(vs@);
    proof {
        assert(full.subrange(0, full.len() as int) =~= full);
    }
    let mut out: Vec<Quote> = Vec::new();
    let mut i: usize = 0;
    while i < vs.len()
        invariant
            i <= vs@.len(),
            full == json_view_list(vs@),
            full.len() == vs@.len(),
            forall|x: int| 0 <= x < vs@.len() ==> #[trigger] full[x] == json_view(vs@[x]),
            quotes_of(full) == match quotes_of(full.subrange(i as int, full.len() as int)) {
                Some(rest) => Some(out@.map_values(|q: Quote| q@) + rest),
                None => None,
            },
        decreases vs@.len() - i,
    {
        let ghost tail = full.subrange(i as int, full.len() as int);
        proof {
            assert(tail[0] == full[i as int]);
            assert(tail.drop_first() =~= full.subrange(i + 1, full.len() as int));
        }
        match quote_from(&vs[i]) {
            Some(q) => {
                let ghost prev = out@;
                let ghost qv = q@;
                out.push(q);
                i = i + 1;
                proof {
                    assert forall|rest: Seq<QuoteV>|
                        prev.map_values(|q: Quote| q@) + (seq![qv] + rest) =~= out@.map_values(
                            |q: Quote| q@,
                        ) + rest by {}
                }
            },
            None => {
                return None;
            },
        }
    }
    proof {
        assert(full.subrange(full.len() as int, full.len() as int) =~= Seq::<JsonV>::empty());
        assert(out@.map_values(|q: Quote| q@) + Seq::<QuoteV>::empty() =~= out@.map_values(
            |q: Quote| q@,
        ));
    }
    Some(out)
}

fn person_from(j: &Json) -> (r: Option<Person>)
    ensures
        match r {
            Some(p) => person_from_json(j@) == Some(p@),
            None => person_from_json(j@) is None,
        },
{
    match j {
        Json::Obj(ms) => {
            let id = get_str(ms, "id");
            let name = get_str(ms, "name");
            let created_at = get_str(ms, "created_at");
            let updated_at = get_str(ms, "updated_at");
            let notes = get_str(ms, "notes");
            match (id, name, created_at, updated_at, notes) {
                (Some(id), Some(name), Some(created_at), Some(updated_at), Some(notes)) => {
                    let tix = lookup_index(ms, "tags");
                    let iix = lookup_index(ms, "information");
                    match (tix, iix) {
                        (Some(tix), Some(iix)) => match (&ms[tix].1, &ms[iix].1) {
                            (Json::Arr(tvs), Json::Arr(ivs)) => match (
                                strs_from(tvs),
                                infos_from(ivs),
                            ) {
                                (Some(tags), Some(information)) => match lookup_index(
                                    ms,
                                    "quotes",
                                ) {
                                    None => {
                                        let p = Person {
                                            id,
                                            name,
                                            created_at,
                                            updated_at,
                                            notes,
                                            tags,
                                            information,
                                            quotes: Vec::new(),
                                        };
                                        proof {
                                            assert(p@.quotes =~= Seq::<QuoteV>::empty());
                                        }
                                        Some(p)
                                    },
                                    Some(qix) => match &ms[qix].1 {
                                        Json::Arr(qvs) => match quotes_from(qvs) {
                                            Some(quotes) => Some(
                                                Person {
                                                    id,
                                                    name,
                                                    created_at,
                                                    updated_at,
                                                    notes,
                                                    tags,
                                                    information,
                                                    quotes,
                                                },
                                            ),
                                            None => None,
                                        },
                                        _ => None,
                                    },
                                },
                                _ => None,
                            },
                            _ => None,
                        },
                        _ => None,
                    }
                },
                _ => None,
            }
        },
        _ => None,
    }
}

/// Read a person back from record text; a text that does not hold a
/// well-formed record is a parse error.
pub fn parse_person(text: &str) -> (r: Result<Person, StoreError>)
    ensures
        match r {
            Ok(p) => parse_record(text@) == Some(p@),
            Err(e) => parse_record(text@) is None && e == StoreError::ParseError,
        },
{
    let cs = crate::chars::str_chars(text);
    match crate::json::parse_json(&cs) {
        Some(j) => match person_from(&j) {
            Some(p) => Ok(p),
            None => Err(StoreError::ParseError),
        },
        None => Err(StoreError::ParseError),
    }
}

} // verus!
