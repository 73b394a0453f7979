//! Creating an entity: the values given on the command line and the
//! frontmatter of the new entity.

use vstd::prelude::*;
use crate::fields::Frontmatter;
use crate::query::parser::{DateContext, DateContextV};
use crate::schema::registry::TypeRegistry;
use crate::storage::markdown::with_updates;
use crate::text::{
    chars_of, find_chars, first_occurrence, has_prefix, has_suffix, slice_chars, split_chars,
    split_on, starts_with, str_equal, string_of, texts, trim, trim_chars,
};
use crate::value::{chrono_parse_ymd, local_today, Date, Value, ValueV};

verus! {

/// The arguments of `cortx create`.
#[derive(Debug)]
pub struct CreateArgs {
    /// Entity type (resolved from types.yaml).
    pub entity_type: String,
    pub id: Option<String>,
    pub title: Option<String>,
    pub name: Option<String>,
    pub tags: Option<String>,
    /// `key=value` pairs.
    pub fields: Vec<String>,
}

/// Whether the day that a date keyword names exists in the context.
pub open spec fn keyword_ok(v: Seq<char>, ctx: DateContextV) -> bool {
    &&& v == "yesterday"@ ==> ctx.yesterday is Some
    &&& v == "tomorrow"@ ==> ctx.tomorrow is Some
}

/// `s` without leading double quotes.
pub open spec fn drop_quotes_start(s: Seq<char>) -> Seq<char>
    decreases s.len(),
{
    if s.len() > 0 && s[0] == '"' {
        drop_quotes_start(s.drop_first())
    } else {
        s
    }
}

/// `s` without trailing double quotes.
pub open spec fn drop_quotes_end(s: Seq<char>) -> Seq<char>
    decreases s.len(),
{
    if s.len() > 0 && s.last() == '"' {
        drop_quotes_end(s.drop_last())
    } else {
        s
    }
}

/// `s` without surrounding double quotes (`trim_matches('"')`).
pub open spec fn unquoted(s: Seq<char>) -> Seq<char> {
    drop_quotes_end(drop_quotes_start(s))
}

/// The items of a `[a, b, ...]` list value: the text between the brackets
/// split at commas, each piece trimmed and unquoted.
pub open spec fn list_items(inner: Seq<char>) -> Seq<ValueV> {
    split_on(inner, ',').map_values(|p: Seq<char>| ValueV::Str(unquoted(trim(p))))
}

/// The value that a command-line text stands for: the date keywords, a
/// `YYYY-MM-DD` date, a `[...]` list of texts, or the text itself.
pub open spec fn cli_value(v: Seq<char>, ctx: DateContextV) -> ValueV {
    if v == "today"@ {
        ValueV::Date(ctx.today.0, ctx.today.1, ctx.today.2)
    } else if v == "yesterday"@ {
        {
            let d = ctx.yesterday->0;
            ValueV::Date(d.0, d.1, d.2)
        }
    } else if v == "tomorrow"@ {
        {
            let d = ctx.tomorrow->0;
            ValueV::Date(d.0, d.1, d.2)
        }
    } else if chrono_parse_ymd(v) is Some {
        let d = chrono_parse_ymd(v)->0;
        ValueV::Date(d.0, d.1, d.2)
    } else if has_prefix(v, "["@) && has_suffix(v, "]"@) {
        ValueV::Arr(list_items(v.subrange(1, v.len() - 1)))
    } else {
        ValueV::Str(v)
    }
}

fn unquote(v: &Vec<char>) -> (r: Vec<char>)
    ensures
        r@ == unquoted(v@),
{
    let mut i: usize = 0;
    assert(v@.subrange(0, v@.len() as int) =~= v@);
    while i < v.len() && v[i] == '"'
        invariant
            i <= v@.len(),
            drop_quotes_start(v@) == drop_quotes_start(v@.subrange(i as int, v@.len() as int)),
        decreases v@.len() - i,
    {
        assert(v@.subrange(i as int, v@.len() as int).drop_first() =~= v@.subrange(
            i + 1,
            v@.len() as int,
        ));
        i += 1;
    }
    let ghost s = v@.subrange(i as int, v@.len() as int);
    assert(drop_quotes_start(s) == s);
    let mut j: usize = v.len();
    assert(v@.subrange(i as int, j as int) =~= s);
    while j > i && v[j - 1] == '"'
        invariant
            i <= j <= v@.len(),
            s == v@.subrange(i as int, v@.len() as int),
            drop_quotes_end(s) == drop_quotes_end(v@.subrange(i as int, j as int)),
        decreases j,
    {
        assert(v@.subrange(i as int, j as int).drop_last() =~= v@.subrange(i as int, j - 1));
        j -= 1;
    }
    slice_chars(v.as_slice(), i, j)
}

/// The value that a command-line text stands for.
pub fn parse_cli_value_with(v: &str, ctx: &DateContext) -> (r: Value)
    requires
        keyword_ok(v@, ctx@),
    ensures
        r@ == cli_value(v@, ctx@),
{
    proof {
        reveal_strlit("[");
        reveal_strlit("]");
    }
    if str_equal(v, "today") {
        return Value::Date(ctx.today);
    }
    if str_equal(v, "yesterday") {
        return match ctx.yesterday {
            Some(d) => Value::Date(d),
            None => Value::Null,
        };
    }
    if str_equal(v, "tomorrow") {
        return match ctx.tomorrow {
            Some(d) => Value::Date(d),
            None => Value::Null,
        };
    }
    match Value::parse_as_date(v) {
        Some(d) => {
            return d;
        },
        None => {},
    }
    let c = chars_of(v);
    let n = c.len();
    if n >= 2 && c[0] == '[' && c[n - 1] == ']' {
        proof {
            assert(c@.subrange(0, 1) =~= "["@);
            assert(c@.subrange(n - 1, n as int) =~= "]"@);
        }
        let inner = string_of(slice_chars(c.as_slice(), 1, n - 1).as_slice());
        let pieces = split_chars(inner.as_str(), ',');
        let ghost pv = texts(pieces@);
        let mut items: Vec<Value> = Vec::new();
        let mut i: usize = 0;
        while i < pieces.len()
            invariant
                i <= pieces@.len(),
                pv == texts(pieces@),
                items@.len() == i,
                forall|k: int|
                    0 <= k < i ==> (#[trigger] items@[k])@ == ValueV::Str(unquoted(trim(pv[k]))),
            decreases pieces@.len() - i,
        {
            let pc = chars_of(pieces[i].as_str());
            assert(pc@ == pv[i as int]);
            let t = trim_chars(pc.as_slice());
            let u = unquote(&t);
            items.push(Value::String(string_of(u.as_slice())));
            i += 1;
        }
        let r = Value::Array(items);
        assert(r@->Arr_0 =~= list_items(v@.subrange(1, v@.len() - 1)));
        return r;
    }
    proof {
        if has_prefix(v@, "["@) && has_suffix(v@, "]"@) {
            assert(v@.subrange(0, 1)[0] == '[');
            assert(v@.subrange(v@.len() - 1, v@.len() as int)[0] == ']');
        }
    }
    Value::String(v.to_owned())
}

/// The value that a command-line text stands for, the date keywords read
/// as the days around today; `None` on a day at the end of the calendar
/// for the keyword that would go past it.
pub fn parse_cli_value(v: &str) -> (r: Option<Value>)
    ensures
        v@ != "yesterday"@ && v@ != "tomorrow"@ ==> r is Some,
        exists|ctx: DateContextV|
            crate::query::parser::context_of_day(ctx) && #[trigger] keyword_ok(v@, ctx) == (r is Some)
                && (r matches Some(x) ==> cli_value(v@, ctx) == x@),
{
    let ctx = DateContext::of_day(local_today());
    assert(crate::query::parser::context_of_day(ctx@));
    if (str_equal(v, "yesterday") && ctx.yesterday.is_none()) || (str_equal(v, "tomorrow")
        && ctx.tomorrow.is_none()) {
        assert(!keyword_ok(v@, ctx@));
        return None;
    }
    assert(keyword_ok(v@, ctx@));
    let x = parse_cli_value_with(v, &ctx);
    Some(x)
}

/// The key and value of a `key=value` text, split at its first `=`.
pub open spec fn key_value(s: Seq<char>) -> Option<(Seq<char>, Seq<char>)> {
    match first_occurrence(s, seq!['=']) {
        Some(i) => Some((s.subrange(0, i), s.subrange(i + 1, s.len() as int))),
        None => None,
    }
}

/// Splits a `key=value` text at its first `=`.
pub fn split_key_value(s: &str) -> (r: Option<(String, String)>)
    ensures
        match key_value(s@) {
            Some((k, v)) => r matches Some((a, b)) && a@ == k && b@ == v,
            None => r is None,
        },
{
    let c = chars_of(s);
    let n = c.len();
    let mut eq: Vec<char> = Vec::new();
    eq.push('=');
    assert(eq@ =~= seq!['=']);
    match find_chars(c.as_slice(), eq.as_slice()) {
        Some(i) => {
            proof {
                crate::text::lemma_first_occurrence_occurs(c@, eq@);
            }
            assert(i + 1 <= n);
            let k = string_of(slice_chars(c.as_slice(), 0, i).as_slice());
            let v = string_of(slice_chars(c.as_slice(), i + 1, n).as_slice());
            Some((k, v))
        },
        None => None,
    }
}

/// The `key=value` pairs of the texts, in order; texts without `=` are
/// skipped.
pub open spec fn pairs_of(fields: Seq<Seq<char>>) -> Seq<(Seq<char>, Seq<char>)>
    decreases fields.len(),
{
    if fields.len() == 0 {
        Seq::empty()
    } else {
        match key_value(fields.last()) {
            Some(p) => pairs_of(fields.drop_last()).push(p),
            None => pairs_of(fields.drop_last()),
        }
    }
}

/// Whether every date keyword among the values of the pairs names a day
/// of the context.
pub open spec fn keywords_ok(pairs: Seq<(Seq<char>, Seq<char>)>, ctx: DateContextV) -> bool {
    forall|i: int| 0 <= i < pairs.len() ==> keyword_ok(#[trigger] pairs[i].1, ctx)
}

/// The pairs with their values read as command-line values.
pub open spec fn parsed_pairs(pairs: Seq<(Seq<char>, Seq<char>)>, ctx: DateContextV) -> Seq<
    (Seq<char>, ValueV),
> {
    pairs.map_values(|p: (Seq<char>, Seq<char>)| (p.0, cli_value(p.1, ctx)))
}

/// The views of a list of field values.
pub open spec fn pairs_view(u: Seq<(String, Value)>) -> Seq<(Seq<char>, ValueV)> {
    u.map_values(|p: (String, Value)| (p.0@, p.1@))
}

/// The `key=value` pairs of the texts, their values read as command-line
/// values; `None` when a date keyword names a day that the context lacks.
pub fn parse_field_pairs(fields: &Vec<String>, ctx: &DateContext) -> (r: Option<Vec<(String, Value)>>)
    ensures
        match r {
            Some(v) => keywords_ok(pairs_of(texts(fields@)), ctx@) && pairs_view(v@) == parsed_pairs(
                pairs_of(texts(fields@)),
                ctx@,
            ),
            None => !keywords_ok(pairs_of(texts(fields@)), ctx@),
        },
{
    let ghost fv = texts(fields@);
    let mut out: Vec<(String, Value)> = Vec::new();
    let mut i: usize = 0;
    while i < fields.len()
        invariant
            i <= fields@.len(),
            fv == texts(fields@),
            keywords_ok(pairs_of(fv.take(i as int)), ctx@),
            pairs_view(out@) == parsed_pairs(pairs_of(fv.take(i as int)), ctx@),
        decreases fields@.len() - i,
    {
        assert(fv.take(i + 1).drop_last() =~= fv.take(i as int));
        assert(fv.take(i + 1).last() == fields@[i as int]@);
        match split_key_value(fields[i].as_str()) {
            Some((k, v)) => {
                if (str_equal(v.as_str(), "yesterday") && ctx.yesterday.is_none()) || (str_equal(
                    v.as_str(),
                    "tomorrow",
                ) && ctx.tomorrow.is_none()) {
                    proof {
                        let ps = pairs_of(fv.take(i + 1));
                        assert(ps.last() == (k@, v@));
                        assert(!keyword_ok(ps[ps.len() - 1].1, ctx@));
                        lemma_keywords_stay_bad(fv, i + 1, fv.len() as int, ctx@);
                        assert(fv.take(fv.len() as int) =~= fv);
                    }
                    return None;
                }
                let x = parse_cli_value_with(v.as_str(), ctx);
                let ghost before = pairs_view(out@);
                out.push((k, x));
                proof {
                    let ps = pairs_of(fv.take(i as int));
                    assert(pairs_of(fv.take(i + 1)) == ps.push((k@, v@)));
                    assert(pairs_view(out@) =~= before.push((k@, x@)));
                    assert(parsed_pairs(ps.push((k@, v@)), ctx@) =~= parsed_pairs(ps, ctx@).push(
                        (k@, cli_value(v@, ctx@)),
                    ));
                    assert forall|m: int| 0 <= m < ps.len() + 1 implies keyword_ok(
                        #[trigger] ps.push((k@, v@))[m].1,
                        ctx@,
                    ) by {
                        if m < ps.len() {
                            assert(ps.push((k@, v@))[m] == ps[m]);
                        }
                    }
                }
            },
            None => {},
        }
        i += 1;
    }
    assert(fv.take(fields@.len() as int) =~= fv);
    Some(out)
}

proof fn lemma_keywords_stay_bad(fv: Seq<Seq<char>>, n: int, m: int, ctx: DateContextV)
    requires
        0 <= n <= m <= fv.len(),
        !keywords_ok(pairs_of(fv.take(n)), ctx),
    ensures
        !keywords_ok(pairs_of(fv.take(m)), ctx),
    decreases m - n,
{
    if m > n {
        lemma_keywords_stay_bad(fv, n, m - 1, ctx);
        assert(fv.take(m).drop_last() =~= fv.take(m - 1));
        let ps = pairs_of(fv.take(m - 1));
        let i = choose|i: int| 0 <= i < ps.len() && !keyword_ok(#[trigger] ps[i].1, ctx);
        match key_value(fv.take(m).last()) {
            Some(p) => {
                assert(ps.push(p)[i] == ps[i]);
            },
            None => {},
        }
    }
}

/// The tags of a `--tags a, b` text: split at commas and trimmed.
pub open spec fn tag_values(tags: Seq<char>) -> ValueV {
    ValueV::Arr(split_on(tags, ',').map_values(|p: Seq<char>| ValueV::Str(trim(p))))
}

/// Whether one of the texts starts with `status=`.
pub open spec fn sets_status(fields: Seq<Seq<char>>) -> bool {
    exists|i: int| 0 <= i < fields.len() && has_prefix(#[trigger] fields[i], "status="@)
}

/// The fields of a new entity, in the order they are set: its id and type,
/// its title and name if given, `status: open` when the type has a status
/// field and no `status=` is given, its tags, the `key=value` fields, and
/// the creation and update dates.
pub open spec fn new_fields(
    entity_type: Seq<char>,
    id: Seq<char>,
    title: Option<Seq<char>>,
    name: Option<Seq<char>>,
    default_status: bool,
    tags: Option<Seq<char>>,
    sets: Seq<(Seq<char>, ValueV)>,
    today: (int, int, int),
) -> Seq<(Seq<char>, ValueV)> {
    let head = seq![("id"@, ValueV::Str(id)), ("type"@, ValueV::Str(entity_type))];
    let with_title = match title {
        Some(t) => head.push(("title"@, ValueV::Str(t))),
        None => head,
    };
    let with_name = match name {
        Some(n) => with_title.push(("name"@, ValueV::Str(n))),
        None => with_title,
    };
    let with_status = if default_status {
        with_name.push(("status"@, ValueV::Str("open"@)))
    } else {
        with_name
    };
    let with_tags = match tags {
        Some(t) => with_status.push(("tags"@, tag_values(t))),
        None => with_status.push(("tags"@, ValueV::Arr(Seq::empty()))),
    };
    with_tags + sets + seq![
        ("created_at"@, ValueV::Date(today.0, today.1, today.2)),
        ("updated_at"@, ValueV::Date(today.0, today.1, today.2)),
    ]
}

fn tags_value(tags: &str) -> (r: Value)
    ensures
        r@ == tag_values(tags@),
{
    let pieces = split_chars(tags, ',');
    let ghost pv = texts(pieces@);
    let mut items: Vec<Value> = Vec::new();
    let mut i: usize = 0;
    while i < pieces.len()
        invariant
            i <= pieces@.len(),
            pv == texts(pieces@),
            items@.len() == i,
            forall|k: int| 0 <= k < i ==> (#[trigger] items@[k])@ == ValueV::Str(trim(pv[k])),
        decreases pieces@.len() - i,
    {
        let pc = chars_of(pieces[i].as_str());
        assert(pc@ == pv[i as int]);
        let t = trim_chars(pc.as_slice());
        items.push(Value::String(string_of(t.as_slice())));
        i += 1;
    }
    let r = Value::Array(items);
    assert(r@->Arr_0 =~= tag_values(tags@)->Arr_0);
    r
}

fn any_sets_status(fields: &Vec<String>) -> (r: bool)
    ensures
        r == sets_status(texts(fields@)),
{
    let mut i: usize = 0;
    while i < fields.len()
        invariant
            i <= fields@.len(),
            forall|k: int| 0 <= k < i ==> !has_prefix(#[trigger] texts(fields@)[k], "status="@),
        decreases fields@.len() - i,
    {
        if starts_with(fields[i].as_str(), "status=") {
            assert(has_prefix(texts(fields@)[i as int], "status="@));
            return true;
        }
        i += 1;
    }
    false
}

/// The optional text of an optional string.
pub open spec fn opt_text(o: Option<String>) -> Option<Seq<char>> {
    match o {
        Some(s) => Some(s@),
        None => None,
    }
}

/// The frontmatter of a new entity with the id `id`, its dates those of
/// `ctx`; `None` when a `key=value` field names a day that the context
/// lacks.
pub fn create_fields(args: &CreateArgs, id: &str, registry: &TypeRegistry, ctx: &DateContext) -> (r:
    Option<Frontmatter>)
    ensures
        ({
            let pairs = pairs_of(texts(args.fields@));
            let default_status = registry@.contains_key(args.entity_type@)
                && registry@[args.entity_type@].fields.contains_key("status"@) && !sets_status(
                texts(args.fields@),
            );
            match r {
                Some(fm) => keywords_ok(pairs, ctx@) && fm@ == with_updates(
                    Map::empty(),
                    new_fields(
                        args.entity_type@,
                        id@,
                        opt_text(args.title),
                        opt_text(args.name),
                        default_status,
                        opt_text(args.tags),
                        parsed_pairs(pairs, ctx@),
                        ctx@.today,
                    ),
                ),
                None => !keywords_ok(pairs, ctx@),
            }
        }),
{
    let sets = match parse_field_pairs(&args.fields, ctx) {
        Some(s) => s,
        None => {
            return None;
        },
    };
    let default_status = match registry.get(args.entity_type.as_str()) {
        Some(td) => td.fields.contains_key("status") && !any_sets_status(&args.fields),
        None => false,
    };
    let mut list: Vec<(String, Value)> = Vec::new();
    list.push(("id".to_owned(), Value::String(id.to_owned())));
    list.push(("type".to_owned(), Value::String(args.entity_type.clone())));
    let ghost h0 = seq![("id"@, ValueV::Str(id@)), ("type"@, ValueV::Str(args.entity_type@))];
    assert(pairs_view(list@) =~= h0);
    match &args.title {
        Some(t) => list.push(("title".to_owned(), Value::String(t.clone()))),
        None => {},
    }
    let ghost h1 = match opt_text(args.title) {
        Some(t) => h0.push(("title"@, ValueV::Str(t))),
        None => h0,
    };
    assert(pairs_view(list@) =~= h1);
    match &args.name {
        Some(n) => list.push(("name".to_owned(), Value::String(n.clone()))),
        None => {},
    }
    let ghost h2 = match opt_text(args.name) {
        Some(n) => h1.push(("name"@, ValueV::Str(n))),
        None => h1,
    };
    assert(pairs_view(list@) =~= h2);
    if default_status {
        list.push(("status".to_owned(), Value::String("open".to_owned())));
    }
    let ghost h3 = if default_status {
        h2.push(("status"@, ValueV::Str("open"@)))
    } else {
        h2
    };
    assert(pairs_view(list@) =~= h3);
    match &args.tags {
        Some(t) => list.push(("tags".to_owned(), tags_value(t.as_str()))),
        None => {
            let empty_tags = Value::Array(Vec::new());
            assert(empty_tags@ == ValueV::Arr(Seq::empty())) by {
                assert(empty_tags@->Arr_0 =~= Seq::<ValueV>::empty());
            }
            list.push(("tags".to_owned(), empty_tags));
        },
    }
    let ghost h4 = match opt_text(args.tags) {
        Some(t) => h3.push(("tags"@, tag_values(t))),
        None => h3.push(("tags"@, ValueV::Arr(Seq::empty()))),
    };
    assert(pairs_view(list@) =~= h4);
    let ghost head = pairs_view(list@);
    let mut i: usize = 0;
    while i < sets.len()
        invariant
            i <= sets@.len(),
            pairs_view(list@) == head + pairs_view(sets@).take(i as int),
        decreases sets@.len() - i,
    {
        let ghost before = pairs_view(list@);
        list.push((sets[i].0.clone(), sets[i].1.clone()));
        assert(pairs_view(list@) =~= before.push(pairs_view(sets@)[i as int]));
        assert(pairs_view(sets@).take(i + 1) =~= pairs_view(sets@).take(i as int).push(
            pairs_view(sets@)[i as int],
        ));
        i += 1;
    }
    assert(pairs_view(sets@).take(sets@.len() as int) =~= pairs_view(sets@));
    let ghost h5 = pairs_view(list@);
    list.push(("created_at".to_owned(), Value::Date(ctx.today)));
    list.push(("updated_at".to_owned(), Value::Date(ctx.today)));
    assert(pairs_view(list@) =~= h5 + seq![
        ("created_at"@, ValueV::Date(ctx@.today.0, ctx@.today.1, ctx@.today.2)),
        ("updated_at"@, ValueV::Date(ctx@.today.0, ctx@.today.1, ctx@.today.2)),
    ]);
    let mut fm = Frontmatter::new();
    let mut k: usize = 0;
    let ghost lv = pairs_view(list@);
    while k < list.len()
        invariant
            k <= list@.len(),
            lv == pairs_view(list@),
            fm@ == with_updates(Map::empty(), lv.take(k as int)),
        decreases list@.len() - k,
    {
        assert(lv.take(k + 1).drop_last() =~= lv.take(k as int));
        assert(lv.take(k + 1).last() == lv[k as int]);
        fm.insert(list[k].0.clone(), list[k].1.clone());
        k += 1;
    }
    proof {
        reveal_strlit("status");
        assert(lv.take(list@.len() as int) =~= lv);
        let pairs = pairs_of(texts(args.fields@));
        let ds = registry@.contains_key(args.entity_type@)
            && registry@[args.entity_type@].fields.contains_key("status"@) && !sets_status(
            texts(args.fields@),
        );
        assert(default_status == ds);
        assert(lv =~= new_fields(
            args.entity_type@,
            id@,
            opt_text(args.title),
            opt_text(args.name),
            ds,
            opt_text(args.tags),
            parsed_pairs(pairs, ctx@),
            ctx@.today,
        ));
    }
    Some(fm)
}

/// The id of a new entity that was given none: its type, the date stamp
/// and a short random part, joined by dashes.
pub fn generated_id(entity_type: &str, stamp: &str, short: &str) -> (r: String)
    ensures
        r@ == entity_type@ + "-"@ + stamp@ + "-"@ + short@,
{
    let mut r = entity_type.to_owned();
    r.append("-");
    r.append(stamp);
    r.append("-");
    r.append(short);
    r
}

} // verus!
