//! The persisted text format: a header line, then one comma-separated line
//! per entity with the fields id, name, level, kind, experience, gender.
//! Decoding drops lines without exactly six fields and substitutes a
//! documented default for every malformed field; it never fails.

use crate::entity::{entity_eq, gender_text, kind_text, Entity, Gender, Kind};
use crate::ids::{id_round_trips, id_text, parse_id, uuid_parsed, uuid_text};
use crate::text::{
    chars_to_string, dec_text, lemma_dec_text_parses, lemma_split_concat, lemma_split_no_sep,
    lines_of, lines_text, parse_u32, parse_u32_text, push_char, split_chars, split_text, to_chars,
    u32_string,
};
use vstd::prelude::*;
use vstd::string::*;

verus! {

/// The header line of the persisted format.
pub open spec fn header_text() -> Seq<char> {
    "ID,Nom,Niveau,Type,XP,Genre"@
}

/// The six fields of one entity, in the persisted order.
pub open spec fn entity_fields(e: Entity) -> Seq<Seq<char>> {
    seq![
        uuid_text(e.id),
        e.name@,
        dec_text(e.level as int),
        kind_text(e.kind),
        dec_text(e.experience as int),
        gender_text(e.gender),
    ]
}

/// The persisted line of one entity: its six fields, comma-separated.
pub open spec fn encode_entity(e: Entity) -> Seq<char> {
    uuid_text(e.id) + seq![','] + e.name@ + seq![','] + dec_text(e.level as int) + seq![',']
        + kind_text(e.kind) + seq![','] + dec_text(e.experience as int) + seq![','] + gender_text(
        e.gender,
    )
}

/// The lines after the header: one per entity, each ended by a newline.
pub open spec fn encode_lines(s: Seq<Entity>) -> Seq<char>
    decreases s.len(),
{
    if s.len() == 0 {
        Seq::empty()
    } else {
        encode_entity(s[0]) + seq!['\n'] + encode_lines(s.skip(1))
    }
}

/// The whole persisted document of a population.
pub open spec fn encode_text(s: Seq<Entity>) -> Seq<char> {
    header_text() + seq!['\n'] + encode_lines(s)
}

/// The kind a piece of text names; anything unrecognized falls back to the
/// first kind, `Feu`.
pub open spec fn kind_of_text(s: Seq<char>) -> Kind {
    if s == kind_text(Kind::Eau) {
        Kind::Eau
    } else if s == kind_text(Kind::Plante) {
        Kind::Plante
    } else if s == kind_text(Kind::Electrik) {
        Kind::Electrik
    } else if s == kind_text(Kind::Tenebre) {
        Kind::Tenebre
    } else {
        Kind::Feu
    }
}

/// The gender a piece of text names; anything unrecognized falls back to the
/// first gender, `Male`.
pub open spec fn gender_of_text(s: Seq<char>) -> Gender {
    if s == gender_text(Gender::Femelle) {
        Gender::Femelle
    } else {
        Gender::Male
    }
}

/// The well-formed records among a document body's lines: each line is split
/// on commas, and only lines with exactly six fields are kept, in order.
pub open spec fn records_of(ls: Seq<Seq<char>>) -> Seq<Seq<Seq<char>>>
    decreases ls.len(),
{
    if ls.len() == 0 {
        Seq::empty()
    } else {
        let f = split_text(ls[0], ',');
        let rest = records_of(ls.skip(1));
        if f.len() == 6 {
            seq![f] + rest
        } else {
            rest
        }
    }
}

/// The lines of a document after its header line.
pub open spec fn body_lines(s: Seq<char>) -> Seq<Seq<char>> {
    let ls = lines_text(s);
    if ls.len() == 0 {
        ls
    } else {
        ls.skip(1)
    }
}

/// The well-formed records of a document.
pub open spec fn spec_records(s: Seq<char>) -> Seq<Seq<Seq<char>>> {
    records_of(body_lines(s))
}

/// How a decoded entity relates to the six fields of its record: the name is
/// taken verbatim; a level that does not read as a number defaults to 1, an
/// experience to 0; unknown kind or gender text falls back to the first
/// value; and an id whose text does not parse is replaced by a fresh random
/// id, so only a parsed id is pinned down.
pub open spec fn entity_matches(e: Entity, f: Seq<Seq<char>>) -> bool {
    &&& f.len() == 6
    &&& match uuid_parsed(f[0]) {
        Some(id) => e.id == id,
        None => true,
    }
    &&& e.name@ == f[1]
    &&& e.level == match parse_u32_text(f[2]) {
        Some(n) => n,
        None => 1u32,
    }
    &&& e.kind == kind_of_text(f[3])
    &&& e.experience == match parse_u32_text(f[4]) {
        Some(n) => n,
        None => 0u32,
    }
    &&& e.gender == gender_of_text(f[5])
}

/// An entity the text format carries exactly: a name free of the format's
/// separator characters.
pub open spec fn codec_safe(e: Entity) -> bool {
    forall|i: int|
        0 <= i < e.name@.len() ==> #[trigger] e.name@[i] != ',' && e.name@[i] != '\n' && e.name@[i]
            != '\r'
}

/// A piece of text free of the format's separator characters.
pub open spec fn field_clean(s: Seq<char>) -> bool {
    forall|i: int|
        0 <= i < s.len() ==> #[trigger] s[i] != ',' && s[i] != '\n' && s[i] != '\r'
}

/// One line per entity, in order.
pub open spec fn entity_lines(s: Seq<Entity>) -> Seq<Seq<char>> {
    Seq::new(s.len(), |i: int| encode_entity(s[i]))
}

/// The fields of each entity's record, in order.
pub open spec fn entity_records(s: Seq<Entity>) -> Seq<Seq<Seq<char>>> {
    Seq::new(s.len(), |i: int| entity_fields(s[i]))
}

proof fn lemma_entity_line(e: Entity)
    requires
        codec_safe(e),
        id_round_trips(e.id),
    ensures
        split_text(encode_entity(e), ',') == entity_fields(e),
        forall|i: int|
            0 <= i < encode_entity(e).len() ==> #[trigger] encode_entity(e)[i] != '\n',
        encode_entity(e).len() > 0,
        encode_entity(e).last() != '\r',
{
    let f0 = uuid_text(e.id);
    let f1 = e.name@;
    let f2 = dec_text(e.level as int);
    let f3 = kind_text(e.kind);
    let f4 = dec_text(e.experience as int);
    let f5 = gender_text(e.gender);
    lemma_dec_text_parses(e.level as int);
    lemma_dec_text_parses(e.experience as int);
    assert(field_clean(f0));
    assert(field_clean(f1));
    assert(field_clean(f2));
    assert(field_clean(f3));
    assert(field_clean(f4));
    assert(field_clean(f5));
    let t5 = f5;
    let t4 = f4 + seq![','] + t5;
    let t3 = f3 + seq![','] + t4;
    let t2 = f2 + seq![','] + t3;
    let t1 = f1 + seq![','] + t2;
    let t0 = f0 + seq![','] + t1;
    assert(encode_entity(e) =~= t0);
    lemma_split_no_sep(t5, ',');
    lemma_split_concat(f4, t5, ',');
    lemma_split_concat(f3, t4, ',');
    lemma_split_concat(f2, t3, ',');
    lemma_split_concat(f1, t2, ',');
    lemma_split_concat(f0, t1, ',');
    assert(split_text(t0, ',') =~= entity_fields(e));
    assert(forall|i: int| 0 <= i < t0.len() ==> #[trigger] t0[i] != '\n');
    assert(t0.last() == f5.last());
    assert(f5.last() == 'e');
}

proof fn lemma_encode_lines_splits(s: Seq<Entity>)
    requires
        forall|i: int| 0 <= i < s.len() ==> codec_safe(#[trigger] s[i]),
        forall|i: int| 0 <= i < s.len() ==> id_round_trips(#[trigger] s[i].id),
    ensures
        split_text(encode_lines(s), '\n') == entity_lines(s).push(Seq::<char>::empty()),
    decreases s.len(),
{
    if s.len() == 0 {
        assert(split_text(encode_lines(s), '\n') =~= entity_lines(s).push(Seq::<char>::empty()));
    } else {
        let tail = s.skip(1);
        assert(forall|i: int| 0 <= i < tail.len() ==> codec_safe(#[trigger] tail[i]));
        assert(forall|i: int| 0 <= i < tail.len() ==> id_round_trips(#[trigger] tail[i].id));
        lemma_encode_lines_splits(tail);
        lemma_entity_line(s[0]);
        lemma_split_concat(encode_entity(s[0]), encode_lines(tail), '\n');
        assert(split_text(encode_lines(s), '\n') =~= entity_lines(s).push(Seq::<char>::empty()));
    }
}

proof fn lemma_records_of_entity_lines(s: Seq<Entity>)
    requires
        forall|i: int| 0 <= i < s.len() ==> codec_safe(#[trigger] s[i]),
        forall|i: int| 0 <= i < s.len() ==> id_round_trips(#[trigger] s[i].id),
    ensures
        records_of(entity_lines(s)) == entity_records(s),
    decreases s.len(),
{
    if s.len() == 0 {
        assert(records_of(entity_lines(s)) =~= entity_records(s));
    } else {
        let tail = s.skip(1);
        assert(forall|i: int| 0 <= i < tail.len() ==> codec_safe(#[trigger] tail[i]));
        assert(forall|i: int| 0 <= i < tail.len() ==> id_round_trips(#[trigger] tail[i].id));
        lemma_records_of_entity_lines(tail);
        lemma_entity_line(s[0]);
        let ls = entity_lines(s);
        assert(ls[0] == encode_entity(s[0]));
        assert(ls.skip(1) =~= entity_lines(tail));
        assert(split_text(ls[0], ',').len() == 6);
        assert(records_of(ls) == seq![split_text(ls[0], ',')] + records_of(entity_lines(tail)));
        assert(records_of(entity_lines(s)) =~= entity_records(s));
    }
}

/// Reading a kind's own text gives that kind back, and likewise for gender.
pub proof fn lemma_symbol_round_trip(k: Kind, g: Gender)
    ensures
        kind_of_text(kind_text(k)) == k,
        gender_of_text(gender_text(g)) == g,
{
}

/// Encoding then decoding restores every field of every entity, provided the
/// names stay clear of the format's separators and each id reads back from
/// its own text form (which `encode` records of every id it writes).
pub proof fn lemma_encode_decode(s: Seq<Entity>)
    requires
        forall|i: int| 0 <= i < s.len() ==> codec_safe(#[trigger] s[i]),
        forall|i: int| 0 <= i < s.len() ==> id_round_trips(#[trigger] s[i].id),
    ensures
        spec_records(encode_text(s)).len() == s.len(),
        forall|i: int, e: Entity|
            0 <= i < s.len() && #[trigger] entity_matches(e, spec_records(encode_text(s))[i])
                ==> entity_eq(e, s[i]),
{
    let doc = encode_text(s);
    reveal_strlit("ID,Nom,Niveau,Type,XP,Genre");
    assert(header_text().len() == 27);
    assert(forall|i: int| 0 <= i < header_text().len() ==> #[trigger] header_text()[i] != '\n');
    lemma_encode_lines_splits(s);
    lemma_split_concat(header_text(), encode_lines(s), '\n');
    let raw = split_text(doc, '\n');
    assert(raw =~= seq![header_text()] + entity_lines(s).push(Seq::<char>::empty()));
    assert(raw.last().len() == 0);
    let kept = raw.drop_last();
    assert(kept =~= seq![header_text()] + entity_lines(s));
    assert forall|i: int| 0 <= i < kept.len() implies crate::text::strip_cr(#[trigger] kept[i])
        == kept[i] by {
        if i == 0 {
            assert(kept[0].last() == 'e');
        } else {
            lemma_entity_line(s[i - 1]);
            assert(kept[i] == encode_entity(s[i - 1]));
        }
    }
    assert(lines_text(doc) =~= seq![header_text()] + entity_lines(s));
    assert(body_lines(doc) =~= entity_lines(s));
    lemma_records_of_entity_lines(s);
    assert(spec_records(doc) == entity_records(s));
    assert(spec_records(doc).len() == s.len());
    assert forall|i: int, e: Entity|
        0 <= i < s.len() && #[trigger] entity_matches(e, spec_records(doc)[i]) implies entity_eq(
        e,
        s[i],
    ) by {
        let f = entity_records(s)[i];
        assert(f == entity_fields(s[i]));
        assert(uuid_parsed(f[0]) == Some(s[i].id));
        lemma_dec_text_parses(s[i].level as int);
        lemma_dec_text_parses(s[i].experience as int);
        lemma_symbol_round_trip(s[i].kind, s[i].gender);
    }
}

/// Whether `v` holds exactly the characters of `s`.
fn chars_eq_str(v: &Vec<char>, s: &str) -> (r: bool)
    ensures
        r == (v@ == s@),
{
    let n = s.unicode_len();
    if v.len() != n {
        proof {
            assert(v@ != s@);
        }
        return false;
    }
    let mut i: usize = 0;
    while i < n
        invariant
            i <= n,
            n == s@.len(),
            v@.len() == n,
            forall|j: int| 0 <= j < i ==> v@[j] == s@[j],
        decreases n - i,
    {
        if v[i] != s.get_char(i) {
            proof {
                assert(v@ != s@);
            }
            return false;
        }
        i = i + 1;
    }
    proof {
        assert(v@ =~= s@);
    }
    true
}

/// The kind named by `v`, with the documented fallback to `Feu`.
fn kind_from_chars(v: &Vec<char>) -> (k: Kind)
    ensures
        k == kind_of_text(v@),
{
    proof {
        reveal_strlit("Eau");
        reveal_strlit("Plante");
        reveal_strlit("Electrik");
        reveal_strlit("Tenebre");
        assert("Eau"@ =~= kind_text(Kind::Eau));
        assert("Plante"@ =~= kind_text(Kind::Plante));
        assert("Electrik"@ =~= kind_text(Kind::Electrik));
        assert("Tenebre"@ =~= kind_text(Kind::Tenebre));
    }
    if chars_eq_str(v, "Eau") {
        Kind::Eau
    } else if chars_eq_str(v, "Plante") {
        Kind::Plante
    } else if chars_eq_str(v, "Electrik") {
        Kind::Electrik
    } else if chars_eq_str(v, "Tenebre") {
        Kind::Tenebre
    } else {
        Kind::Feu
    }
}

/// The gender named by `v`, with the documented fallback to `Male`.
fn gender_from_chars(v: &Vec<char>) -> (g: Gender)
    ensures
        g == gender_of_text(v@),
{
    proof {
        reveal_strlit("Femelle");
        assert("Femelle"@ =~= gender_text(Gender::Femelle));
    }
    if chars_eq_str(v, "Femelle") {
        Gender::Femelle
    } else {
        Gender::Male
    }
}

/// Encodes a population as the persisted document. Besides the document's
/// exact text, this records that every id in the population reads back from
/// its own text form.
#[verifier::rlimit(60)]
pub fn encode(entities: &Vec<Entity>) -> (r: String)
    ensures
        r@ == encode_text(entities@),
        forall|i: int| 0 <= i < entities@.len() ==> id_round_trips(#[trigger] entities@[i].id),
{
    let mut out = String::from_str("ID,Nom,Niveau,Type,XP,Genre");
    push_char(&mut out, '\n');
    let mut i: usize = 0;
    proof {
        assert(entities@.skip(0) =~= entities@);
        assert(out@ + encode_lines(entities@) =~= encode_text(entities@));
    }
    while i < entities.len()
        invariant
            i <= entities@.len(),
            out@ + encode_lines(entities@.skip(i as int)) == encode_text(entities@),
            forall|k: int| 0 <= k < i ==> id_round_trips(#[trigger] entities@[k].id),
        decreases entities@.len() - i,
    {
        let ghost prev = out@;
        let ghost s_i = entities@.skip(i as int);
        let e = &entities[i];
        proof {
            assert(s_i[0] == entities@[i as int]);
        }
        let idt = id_text(e.id);
        out.append(idt.as_str());
        push_char(&mut out, ',');
        out.append(e.name.as_str());
        push_char(&mut out, ',');
        let lv = u32_string(e.level);
        out.append(lv.as_str());
        push_char(&mut out, ',');
        let kn = crate::entity::kind_label(e.kind);
        out.append(kn.as_str());
        push_char(&mut out, ',');
        let xp = u32_string(e.experience);
        out.append(xp.as_str());
        push_char(&mut out, ',');
        let gn = crate::entity::gender_label(e.gender);
        out.append(gn.as_str());
        push_char(&mut out, '\n');
        proof {
            assert(out@ =~= prev + encode_entity(entities@[i as int]) + seq!['\n']);
            assert(s_i.skip(1) =~= entities@.skip(i as int + 1));
            assert(encode_lines(s_i) == encode_entity(s_i[0]) + seq!['\n'] + encode_lines(
                s_i.skip(1),
            ));
            assert(out@ + encode_lines(entities@.skip(i as int + 1)) =~= prev + encode_lines(
                s_i,
            ));
        }
        i = i + 1;
    }
    proof {
        assert(encode_lines(Seq::<Entity>::empty()) == Seq::<char>::empty());
        assert(entities@.skip(entities@.len() as int) =~= Seq::<Entity>::empty());
        assert(out@ + Seq::<char>::empty() =~= out@);
    }
    out
}

/// Decodes a persisted document: the header line is discarded, lines without
/// exactly six fields are dropped, and each well-formed record becomes one
/// entity under the per-field recovery policy of `entity_matches`.
pub fn decode(text: &str) -> (r: Vec<Entity>)
    ensures
        r@.len() == spec_records(text@).len(),
        forall|i: int|
            0 <= i < r@.len() ==> entity_matches(#[trigger] r@[i], spec_records(text@)[i]),
{
    let chars = to_chars(text);
    let ls = lines_of(&chars);
    let ghost body = body_lines(text@);
    let ghost recs = spec_records(text@);
    let mut out: Vec<Entity> = Vec::new();
    let mut j: usize = 1;
    proof {
        if ls.deep_view().len() == 0 {
            assert(body =~= Seq::<Seq<char>>::empty());
        } else {
            assert(body =~= ls.deep_view().skip(1));
        }
        assert(body.skip(0) =~= body);
        assert(recs.skip(0) =~= recs);
    }
    while j < ls.len()
        invariant
            1 <= j,
            j - 1 <= body.len(),
            ls.deep_view().len() == ls@.len(),
            ls@.len() > 0 ==> body == ls.deep_view().skip(1),
            ls@.len() == 0 ==> body.len() == 0,
            body.len() == if ls@.len() == 0 { 0int } else { ls@.len() - 1 },
            recs == spec_records(text@),
            out@.len() <= recs.len(),
            records_of(body.skip(j - 1)) == recs.skip(out@.len() as int),
            forall|i: int|
                0 <= i < out@.len() ==> entity_matches(#[trigger] out@[i], recs[i]),
        decreases ls@.len() - j,
    {
        let ghost t = body.skip(j - 1);
        let ghost k = out@.len() as int;
        let line = &ls[j];
        proof {
            assert(t[0] == body[j - 1]);
            assert(body[j - 1] == ls.deep_view()[j as int]);
            assert(ls.deep_view()[j as int] == ls@[j as int].deep_view());
            assert(ls@[j as int].deep_view() =~= ls@[j as int]@);
            assert(t[0] == line@);
            assert(t.skip(1) =~= body.skip(j as int));
        }
        let fields = split_chars(line, ',');
        proof {
            assert(fields.deep_view() == split_text(t[0], ','));
            assert(fields.deep_view().len() == fields@.len());
        }
        if fields.len() == 6 {
            proof {
                assert(records_of(t) == seq![split_text(t[0], ',')] + records_of(t.skip(1)));
                assert(recs.skip(k)[0] == split_text(t[0], ','));
                assert(recs[k] == split_text(t[0], ','));
                assert(recs.skip(k).skip(1) =~= records_of(t.skip(1)));
                assert(recs.skip(k + 1) =~= recs.skip(k).skip(1));
            }
            let ghost f = split_text(t[0], ',');
            let id_str = chars_to_string(&fields[0]);
            let id = match parse_id(id_str.as_str()) {
                Some(v) => v,
                None => crate::ids::fresh_id(),
            };
            let name = chars_to_string(&fields[1]);
            let level = match parse_u32(&fields[2]) {
                Some(n) => n,
                None => 1,
            };
            let kind = kind_from_chars(&fields[3]);
            let experience = match parse_u32(&fields[4]) {
                Some(n) => n,
                None => 0,
            };
            let gender = gender_from_chars(&fields[5]);
            let e = Entity { id, name, level, kind, experience, gender };
            proof {
                assert(fields.deep_view()[0] == fields@[0]@);
                assert(fields.deep_view()[1] == fields@[1]@);
                assert(fields.deep_view()[2] == fields@[2]@);
                assert(fields.deep_view()[3] == fields@[3]@);
                assert(fields.deep_view()[4] == fields@[4]@);
                assert(fields.deep_view()[5] == fields@[5]@);
                assert(entity_matches(e, f));
            }
            out.push(e);
        } else {
            proof {
                assert(records_of(t) == records_of(t.skip(1)));
            }
        }
        j = j + 1;
    }
    proof {
        if ls@.len() == 0 {
            assert(body.skip(0) =~= Seq::<Seq<char>>::empty());
        } else {
            assert(body.skip(j - 1) =~= Seq::<Seq<char>>::empty());
        }
        assert(records_of(Seq::<Seq<char>>::empty()) == Seq::<Seq<Seq<char>>>::empty());
        assert(recs.skip(out@.len() as int).len() == 0);
    }
    out
}

} // verus!
