//! The layout of an entity's file: a `---` line, YAML frontmatter, a closing
//! `---` line, then the Markdown body.

use vstd::prelude::*;
use crate::error::CortxError;
use crate::fields::Frontmatter;
use crate::text::{
    chars_occur_at, chars_of, find_chars, first_occurrence, has_prefix, is_whitespace, occurs_at,
    slice_chars, string_of, trim_start,
};
use crate::value::{
    chars_order, compare_strs, lemma_chars_order_equal, lemma_chars_order_flip,
    lemma_chars_order_less_trans, Order, Value, ValueV,
};
use crate::yaml::{reads_back, value_of_yaml, yaml_of_value, yaml_str, YamlNode, YamlV};

verus! {

/// `s` without its leading newlines (`trim_start_matches('\n')`).
pub open spec fn drop_newlines(s: Seq<char>) -> Seq<char>
    decreases s.len(),
{
    if s.len() > 0 && s[0] == '\n' {
        drop_newlines(s.drop_first())
    } else {
        s
    }
}

/// The frontmatter text and the body of a file, or the message of the
/// storage error that refuses it. Leading whitespace is skipped; the file
/// must then start with `---`; the frontmatter runs up to the first line
/// that starts with `---`; the body follows that line's first four
/// characters, without leading newlines.
pub open spec fn split_document(content: Seq<char>) -> Result<(Seq<char>, Seq<char>), Seq<char>> {
    let t = trim_start(content);
    if !has_prefix(t, "---"@) {
        Err("no YAML frontmatter found"@)
    } else {
        let after = t.subrange(3, t.len() as int);
        match first_occurrence(after, "\n---"@) {
            None => Err("unclosed YAML frontmatter"@),
            Some(p) => Ok(
                (after.subrange(0, p), drop_newlines(after.subrange(p + 4, after.len() as int))),
            ),
        }
    }
}

/// The file that holds a frontmatter text and a body.
pub open spec fn document(yaml: Seq<char>, body: Seq<char>) -> Seq<char> {
    "---\n"@ + yaml + "---\n"@ + body
}

/// Skipping leading whitespace that ends at `i` leaves the text from `i` on.
pub proof fn lemma_skip_ws(s: Seq<char>, i: int)
    requires
        0 <= i <= s.len(),
        forall|k: int| 0 <= k < i ==> crate::text::is_ws(s[k]),
        i == s.len() || !crate::text::is_ws(s[i]),
    ensures
        trim_start(s) == s.subrange(i, s.len() as int),
    decreases i,
{
    if i > 0 {
        lemma_skip_ws(s.drop_first(), i - 1);
        assert(s.drop_first().subrange(i - 1, s.drop_first().len() as int) =~= s.subrange(
            i,
            s.len() as int,
        ));
    } else {
        assert(s.subrange(0, s.len() as int) =~= s);
    }
}

proof fn lemma_skip_newlines(s: Seq<char>, i: int)
    requires
        0 <= i <= s.len(),
        forall|k: int| 0 <= k < i ==> s[k] == '\n',
        i == s.len() || s[i] != '\n',
    ensures
        drop_newlines(s) == s.subrange(i, s.len() as int),
    decreases i,
{
    if i > 0 {
        lemma_skip_newlines(s.drop_first(), i - 1);
        assert(s.drop_first().subrange(i - 1, s.drop_first().len() as int) =~= s.subrange(
            i,
            s.len() as int,
        ));
    } else {
        assert(s.subrange(0, s.len() as int) =~= s);
    }
}

/// The index of the first character of `v` that is not whitespace.
fn skip_ws(v: &Vec<char>) -> (i: usize)
    ensures
        i <= v@.len(),
        trim_start(v@) == v@.subrange(i as int, v@.len() as int),
{
    let mut i: usize = 0;
    while i < v.len() && is_whitespace(v[i])
        invariant
            i <= v@.len(),
            forall|k: int| 0 <= k < i ==> crate::text::is_ws(v@[k]),
        decreases v@.len() - i,
    {
        i += 1;
    }
    proof {
        lemma_skip_ws(v@, i as int);
    }
    i
}

/// The index of the first character of `v` from `from` on that is not a newline.
fn skip_newlines(v: &Vec<char>, from: usize) -> (k: usize)
    requires
        from <= v@.len(),
    ensures
        from <= k <= v@.len(),
        drop_newlines(v@.subrange(from as int, v@.len() as int)) == v@.subrange(
            k as int,
            v@.len() as int,
        ),
{
    let mut k: usize = from;
    while k < v.len() && v[k] == '\n'
        invariant
            from <= k <= v@.len(),
            forall|m: int| from <= m < k ==> v@[m] == '\n',
        decreases v@.len() - k,
    {
        k += 1;
    }
    proof {
        let rest = v@.subrange(from as int, v@.len() as int);
        assert forall|m: int| 0 <= m < k - from implies rest[m] == '\n' by {
            assert(rest[m] == v@[from + m]);
        }
        lemma_skip_newlines(rest, k - from);
        assert(rest.subrange(k - from, rest.len() as int) =~= v@.subrange(
            k as int,
            v@.len() as int,
        ));
    }
    k
}

/// Splits a file into its frontmatter text and its body.
pub fn split_frontmatter(content: &str) -> (r: Result<(String, String), CortxError>)
    ensures
        match split_document(content@) {
            Ok((y, b)) => r matches Ok((ys, bs)) && ys@ == y && bs@ == b,
            Err(m) => r matches Err(CortxError::Storage(e)) && e@ == m,
        },
{
    proof {
        reveal_strlit("---");
        reveal_strlit("\n---");
    }
    let v = chars_of(content);
    let i = skip_ws(&v);
    let t = slice_chars(v.as_slice(), i, v.len());
    let dashes = chars_of("---");
    if !chars_occur_at(t.as_slice(), dashes.as_slice(), 0) {
        return Err(CortxError::Storage("no YAML frontmatter found".to_owned()));
    }
    let after = slice_chars(t.as_slice(), 3, t.len());
    let marker = chars_of("\n---");
    match find_chars(after.as_slice(), marker.as_slice()) {
        None => Err(CortxError::Storage("unclosed YAML frontmatter".to_owned())),
        Some(p) => {
            proof {
                crate::text::lemma_first_occurrence_occurs(after@, marker@);
            }
            let yaml = slice_chars(after.as_slice(), 0, p);
            let k = skip_newlines(&after, p + 4);
            let body = slice_chars(after.as_slice(), k, after.len());
            Ok((string_of(yaml.as_slice()), string_of(body.as_slice())))
        },
    }
}

/// The file that holds a frontmatter text and a body.
pub fn assemble_document(yaml: &str, body: &str) -> (r: String)
    ensures
        r@ == document(yaml@, body@),
{
    let mut r = "---\n".to_owned();
    r.append(yaml);
    r.append("---\n");
    r.append(body);
    r
}

/// What a file gives back of what was written to it: a frontmatter text
/// that ends with a newline and has no line starting with `---`, and a body
/// that does not start with a newline, are read back as written (the
/// frontmatter with the newline that follows the opening `---` and without
/// its own last newline).
#[verifier::rlimit(40)]
pub proof fn lemma_split_document(yaml: Seq<char>, body: Seq<char>)
    requires
        yaml.len() > 0,
        yaml.last() == '\n',
        !crate::text::contains_seq(seq!['\n'] + yaml.drop_last(), "\n---"@),
        body.len() == 0 || body[0] != '\n',
    ensures
        split_document(document(yaml, body)) == Ok::<(Seq<char>, Seq<char>), Seq<char>>(
            (seq!['\n'] + yaml.drop_last(), body),
        ),
{
    let d = document(yaml, body);
    let head = seq!['\n'] + yaml.drop_last();
    let n = head.len() as int;
    let after = d.subrange(3, d.len() as int);
    lemma_document_shape(yaml, body);
    assert(trim_start(d) == d) by {
        lemma_skip_ws(d, 0);
        assert(d.subrange(0, d.len() as int) =~= d);
    }
    lemma_marker_first(head, after);
    assert(after.subrange(0, n) =~= head);
    let rest = after.subrange(n + 4, after.len() as int);
    assert(rest.drop_first() =~= body);
    assert(drop_newlines(rest) == drop_newlines(body));
}

/// The characters of a file as `document` lays them out.
proof fn lemma_document_shape(yaml: Seq<char>, body: Seq<char>)
    requires
        yaml.len() > 0,
        yaml.last() == '\n',
    ensures
        ({
            let d = document(yaml, body);
            let n = yaml.len() as int;
            let after = d.subrange(3, d.len() as int);
            &&& !crate::text::is_ws(d[0])
            &&& has_prefix(d, "---"@)
            &&& after.len() == n + 5 + body.len()
            &&& forall|k: int| 0 <= k < n ==> after[k] == (seq!['\n'] + yaml.drop_last())[k]
            &&& after[n] == '\n'
            &&& after[n + 1] == '-' && after[n + 2] == '-' && after[n + 3] == '-'
            &&& after[n + 4] == '\n'
            &&& forall|k: int| 0 <= k < body.len() ==> after[n + 5 + k] == body[k]
        }),
{
    reveal_strlit("---\n");
    reveal_strlit("---");
    let d = document(yaml, body);
    let n = yaml.len() as int;
    let after = d.subrange(3, d.len() as int);
    assert(d.subrange(0, 3) =~= "---"@);
    assert forall|k: int| 0 <= k < n implies after[k] == (seq!['\n'] + yaml.drop_last())[k] by {
        if k > 0 {
            assert(after[k] == yaml[k - 1]);
        }
    }
}

/// In `head` followed by a newline and `---`, the first `\n---` that
/// occurs is the one after `head`, when `head` holds none.
#[verifier::rlimit(40)]
proof fn lemma_marker_first(head: Seq<char>, after: Seq<char>)
    requires
        !crate::text::contains_seq(head, "\n---"@),
        after.len() >= head.len() + 5,
        forall|k: int| 0 <= k < head.len() ==> after[k] == head[k],
        after[head.len() as int] == '\n',
        after[head.len() + 1int] == '-' && after[head.len() + 2int] == '-' && after[head.len() + 3int]
            == '-',
    ensures
        first_occurrence(after, "\n---"@) == Some(head.len() as int),
{
    reveal_strlit("\n---");
    let n = head.len() as int;
    let marker = "\n---"@;
    assert(occurs_at(after, marker, n)) by {
        assert(after.subrange(n, n + 4) =~= marker);
    }
    assert forall|j: int| 0 <= j < n implies !occurs_at(after, marker, j) by {
        if occurs_at(after, marker, j) {
            if j + 4 <= n {
                assert(after.subrange(j, j + 4) =~= head.subrange(j, j + 4));
                assert(occurs_at(head, marker, j));
            } else {
                assert(after.subrange(j, j + 4)[n - j] == after[n]);
            }
        }
    }
    crate::text::lemma_first_occurrence_at(after, marker, n);
}

/// The frontmatter that the first `n` entries of a YAML mapping give: each
/// entry with a string key, its value read as a frontmatter value (a later
/// entry with the same key replaces an earlier one).
pub open spec fn fields_of_pairs(ps: Seq<(YamlV, YamlV)>, n: int) -> Map<Seq<char>, ValueV>
    decreases n,
{
    if n <= 0 || n > ps.len() {
        Map::empty()
    } else {
        match yaml_str(ps[n - 1].0) {
            Some(k) => fields_of_pairs(ps, n - 1).insert(k, value_of_yaml(ps[n - 1].1)),
            None => fields_of_pairs(ps, n - 1),
        }
    }
}

/// The frontmatter that a YAML document holds. Entries whose key is not a
/// string are skipped; a document that is not a mapping is refused with a
/// storage error.
pub fn frontmatter_from_yaml(root: &YamlNode) -> (r: Result<Frontmatter, CortxError>)
    ensures
        match crate::yaml::yaml_pairs(root@) {
            Some(ps) => r matches Ok(fm) && fm@ == fields_of_pairs(ps, ps.len() as int),
            None => r matches Err(CortxError::Storage(m)) && m@
                == "frontmatter must be a YAML mapping"@,
        },
{
    let ps = match root.as_mapping() {
        Some(ps) => ps,
        None => return Err(CortxError::Storage("frontmatter must be a YAML mapping".to_owned())),
    };
    let ghost pv = Seq::new(ps@.len(), |i: int| (ps@[i].0@, ps@[i].1@));
    let mut fm = Frontmatter::new();
    let mut i: usize = 0;
    while i < ps.len()
        invariant
            i <= ps@.len(),
            pv == Seq::new(ps@.len(), |i: int| (ps@[i].0@, ps@[i].1@)),
            fm@ == fields_of_pairs(pv, i as int),
        decreases ps@.len() - i,
    {
        match ps[i].0.as_str() {
            Some(k) => {
                let v = Value::from_yaml(&ps[i].1);
                fm.insert(k.to_owned(), v);
            },
            None => {},
        }
        i += 1;
    }
    Ok(fm)
}

/// Whether the texts are in strictly increasing order.
pub open spec fn ascending(s: Seq<Seq<char>>) -> bool {
    forall|i: int, j: int|
        0 <= i < j < s.len() ==> chars_order(#[trigger] s[i], #[trigger] s[j]) == Order::Less
}

/// Inserting a text between those below it and those above it keeps a list
/// in increasing order.
pub proof fn lemma_insert_ascending(rv: Seq<Seq<char>>, kv: Seq<char>, p: int)
    requires
        ascending(rv),
        0 <= p <= rv.len(),
        forall|m: int| 0 <= m < p ==> chars_order(#[trigger] rv[m], kv) == Order::Less,
        p < rv.len() ==> chars_order(rv[p], kv) == Order::Greater,
    ensures
        ascending(rv.insert(p, kv)),
{
    let nv = rv.insert(p, kv);
    if p < rv.len() {
        lemma_chars_order_flip(rv[p], kv, 0);
    }
    assert forall|a: int, b: int| 0 <= a < b < nv.len() implies chars_order(
        #[trigger] nv[a],
        #[trigger] nv[b],
    ) == Order::Less by {
        if b < p {
            assert(nv[a] == rv[a] && nv[b] == rv[b]);
        } else if b == p {
            assert(nv[a] == rv[a] && nv[b] == kv);
        } else if a < p {
            assert(nv[a] == rv[a] && nv[b] == rv[b - 1]);
        } else if a == p {
            assert(nv[a] == kv && nv[b] == rv[b - 1]);
            if b - 1 > p {
                assert(chars_order(rv[p], rv[b - 1]) == Order::Less);
                lemma_chars_order_less_trans(kv, rv[p], rv[b - 1]);
            }
        } else {
            assert(nv[a] == rv[a - 1] && nv[b] == rv[b - 1]);
        }
    }
}

/// What a list holds after an insertion: what it held, and the new item.
pub proof fn lemma_insert_contains(rv: Seq<Seq<char>>, kv: Seq<char>, p: int, k: Seq<char>)
    requires
        0 <= p <= rv.len(),
    ensures
        rv.insert(p, kv).contains(k) <==> (rv.contains(k) || k == kv),
{
    let nv = rv.insert(p, kv);
    if nv.contains(k) {
        let j = choose|j: int| 0 <= j < nv.len() && nv[j] == k;
        if j < p {
            assert(rv[j] == k);
        } else if j > p {
            assert(rv[j - 1] == k);
        }
    }
    if rv.contains(k) {
        let j = choose|j: int| 0 <= j < rv.len() && rv[j] == k;
        if j < p {
            assert(nv[j] == k);
        } else {
            assert(nv[j + 1] == k);
        }
    }
    if k == kv {
        assert(nv[p] == k);
    }
}

/// The field names of a frontmatter in alphabetical order.
pub fn sorted_keys(fm: &Frontmatter) -> (r: Vec<String>)
    ensures
        ascending(crate::text::texts(r@)),
        crate::text::texts(r@).no_duplicates(),
        crate::text::texts(r@).len() == fm@.dom().len(),
        forall|k: Seq<char>| fm@.contains_key(k) <==> crate::text::texts(r@).contains(k),
{
    let keys = fm.keys();
    fm.key_list_facts();
    let ghost kl = fm.key_list();
    let mut r: Vec<String> = Vec::new();
    let mut i: usize = 0;
    while i < keys.len()
        invariant
            i <= keys@.len(),
            crate::text::texts(keys@) == kl,
            kl.no_duplicates(),
            ascending(crate::text::texts(r@)),
            crate::text::texts(r@).len() == i,
            forall|k: Seq<char>| kl.take(i as int).contains(k) <==> crate::text::texts(r@).contains(k),
        decreases keys@.len() - i,
    {
        let key = keys[i].clone();
        let ghost rv = crate::text::texts(r@);
        let ghost kv = key@;
        assert(kl[i as int] == kv);
        assert(!rv.contains(kv)) by {
            if rv.contains(kv) {
                let j = choose|j: int| 0 <= j < i && kl.take(i as int)[j] == kv;
                assert(kl[j] == kl[i as int]);
            }
        }
        let mut p: usize = 0;
        while p < r.len() && compare_strs(r[p].as_str(), key.as_str()) != Order::Greater
            invariant
                p <= r@.len(),
                rv == crate::text::texts(r@),
                kv == key@,
                forall|m: int| 0 <= m < p ==> chars_order(#[trigger] rv[m], kv) != Order::Greater,
            decreases r@.len() - p,
        {
            assert(rv[p as int] == r@[p as int]@);
            p += 1;
        }
        proof {
            assert forall|m: int| 0 <= m < p implies chars_order(#[trigger] rv[m], kv)
                == Order::Less by {
                if chars_order(rv[m], kv) == Order::Equal {
                    assert(rv[m].subrange(0, 0) =~= kv.subrange(0, 0));
                    lemma_chars_order_equal(rv[m], kv, 0);
                    assert(rv.contains(kv));
                }
            }
            if p < rv.len() {
                assert(chars_order(rv[p as int], kv) == Order::Greater);
            }
            lemma_insert_ascending(rv, kv, p as int);
        }
        r.insert(p, key);
        proof {
            let nv = crate::text::texts(r@);
            assert(nv =~= rv.insert(p as int, kv));
            assert(kl.take(i + 1) =~= kl.take(i as int).push(kv));
            assert forall|k: Seq<char>| kl.take(i + 1).contains(k) <==> nv.contains(k) by {
                lemma_insert_contains(rv, kv, p as int, k);
                lemma_insert_contains(kl.take(i as int), kv, i as int, k);
                assert(kl.take(i as int).insert(i as int, kv) =~= kl.take(i + 1));
            }
        }
        i += 1;
    }
    proof {
        assert(kl.take(keys@.len() as int) =~= kl);
        let rv = crate::text::texts(r@);
        assert(rv.no_duplicates()) by {
            assert forall|a: int, b: int| 0 <= a < b < rv.len() implies rv[a] != rv[b] by {
                assert(chars_order(rv[a], rv[b]) == Order::Less);
                lemma_chars_order_flip(rv[a], rv[a], 0);
            }
        }
    }
    r
}

/// The fields that the first `n` entries of a mapping with distinct string
/// keys give: each key with its value read.
proof fn lemma_fields_of_distinct(ps: Seq<(YamlV, YamlV)>, n: int)
    requires
        0 <= n <= ps.len(),
        forall|i: int| 0 <= i < ps.len() ==> (#[trigger] ps[i]).0 is Str,
        forall|i: int, j: int|
            0 <= i < j < ps.len() ==> (#[trigger] ps[i]).0->Str_0 != (#[trigger] ps[j]).0->Str_0,
    ensures
        forall|k: Seq<char>|
            #[trigger] fields_of_pairs(ps, n).contains_key(k) <==> exists|i: int|
                0 <= i < n && (#[trigger] ps[i]).0 == YamlV::Str(k),
        forall|i: int|
            0 <= i < n ==> fields_of_pairs(ps, n)[(#[trigger] ps[i]).0->Str_0] == value_of_yaml(ps[i].1),
    decreases n,
{
    if n > 0 {
        lemma_fields_of_distinct(ps, n - 1);
        let k = ps[n - 1].0->Str_0;
        assert(yaml_str(ps[n - 1].0) == Some(k));
        assert forall|i: int| 0 <= i < n - 1 implies (#[trigger] ps[i]).0->Str_0 != k by {}
        assert forall|t: Seq<char>| #[trigger] fields_of_pairs(ps, n).contains_key(t) <==> exists|i: int|
            0 <= i < n && (#[trigger] ps[i]).0 == YamlV::Str(t) by {
            if t == k {
                assert(ps[n - 1].0 == YamlV::Str(t));
            } else if fields_of_pairs(ps, n - 1).contains_key(t) {
                let i = choose|i: int| 0 <= i < n - 1 && (#[trigger] ps[i]).0 == YamlV::Str(t);
                assert(ps[i].0 == YamlV::Str(t));
            } else if exists|i: int| 0 <= i < n && (#[trigger] ps[i]).0 == YamlV::Str(t) {
                let i = choose|i: int| 0 <= i < n && (#[trigger] ps[i]).0 == YamlV::Str(t);
                assert(i != n - 1);
                assert(ps[i].0 == YamlV::Str(t));
            }
        }
    }
}

/// The YAML mapping that writes a frontmatter: its fields in alphabetical
/// order of their names, each value as `Value::to_yaml` writes it. Read back
/// (`frontmatter_from_yaml`), it gives the same frontmatter when each of its
/// values reads back from YAML.
pub fn frontmatter_to_yaml(fm: &Frontmatter) -> (r: YamlNode)
    ensures
        (forall|k: Seq<char>| fm@.contains_key(k) ==> reads_back(#[trigger] fm@[k])) ==> (r@ matches YamlV::Pairs(
            ps,
        ) && fields_of_pairs(ps, ps.len() as int) == fm@),
        r@ matches YamlV::Pairs(ps) && {
            let names = Seq::new(ps.len(), |i: int| ps[i].0->Str_0);
            &&& ascending(names)
            &&& names.no_duplicates()
            &&& names.len() == fm@.dom().len()
            &&& forall|i: int| 0 <= i < ps.len() ==> (#[trigger] ps[i]).0 is Str
            &&& forall|i: int|
                0 <= i < ps.len() ==> fm@.contains_key(#[trigger] names[i]) && ps[i].1
                    == yaml_of_value(fm@[names[i]])
            &&& forall|k: Seq<char>| fm@.contains_key(k) ==> names.contains(k)
        },
{
    let keys = sorted_keys(fm);
    let ghost kv = crate::text::texts(keys@);
    let mut out: Vec<(YamlNode, YamlNode)> = Vec::new();
    let mut i: usize = 0;
    while i < keys.len()
        invariant
            i <= keys@.len(),
            kv == crate::text::texts(keys@),
            forall|k: Seq<char>| fm@.contains_key(k) <==> kv.contains(k),
            out@.len() == i,
            forall|m: int|
                0 <= m < i ==> (#[trigger] out@[m]).0@ == YamlV::Str(kv[m]) && out@[m].1@
                    == yaml_of_value(fm@[kv[m]]),
            forall|m: int|
                0 <= m < i ==> (reads_back(fm@[kv[m]]) ==> value_of_yaml((#[trigger] out@[m]).1@)
                    == fm@[kv[m]]),
        decreases keys@.len() - i,
    {
        assert(kv.contains(kv[i as int]));
        let node = match fm.get(keys[i].as_str()) {
            Some(v) => v.to_yaml(),
            None => YamlNode::Null,
        };
        out.push((YamlNode::String(keys[i].clone()), node));
        i += 1;
    }
    let r = YamlNode::Mapping(out);
    proof {
        let ps = r@->Pairs_0;
        let names = Seq::new(ps.len(), |i: int| ps[i].0->Str_0);
        assert(names =~= kv);
        assert forall|i: int| 0 <= i < ps.len() implies fm@.contains_key(#[trigger] names[i]) by {
            assert(kv.contains(kv[i]));
        }
        if forall|k: Seq<char>| fm@.contains_key(k) ==> reads_back(#[trigger] fm@[k]) {
            assert forall|i: int| 0 <= i < ps.len() implies (#[trigger] ps[i]).0 is Str by {
                assert(ps[i].0 == out@[i].0@);
            }
            assert forall|i: int, j: int| 0 <= i < j < ps.len() implies (#[trigger] ps[i]).0->Str_0
                != (#[trigger] ps[j]).0->Str_0 by {
                assert(ps[i].0 == out@[i].0@);
                assert(ps[j].0 == out@[j].0@);
            }
            lemma_fields_of_distinct(ps, ps.len() as int);
            let back = fields_of_pairs(ps, ps.len() as int);
            assert forall|k: Seq<char>| back.contains_key(k) <==> fm@.contains_key(k) by {
                if fm@.contains_key(k) {
                    let i = choose|i: int| 0 <= i < kv.len() && kv[i] == k;
                    assert(ps[i].0 == out@[i].0@);
                    assert(ps[i].0 == YamlV::Str(k));
                }
                if back.contains_key(k) {
                    let i = choose|i: int| 0 <= i < ps.len() && (#[trigger] ps[i]).0 == YamlV::Str(k);
                    assert(ps[i].0 == out@[i].0@);
                    assert(kv.contains(kv[i]));
                }
            }
            assert forall|k: Seq<char>| #[trigger] back.contains_key(k) implies back[k] == fm@[k] by {
                let i = choose|i: int| 0 <= i < ps.len() && (#[trigger] ps[i]).0 == YamlV::Str(k);
                assert(ps[i].0 == out@[i].0@);
                assert(ps[i].1 == out@[i].1@);
                assert(kv[i] == k);
                assert(fm@.contains_key(k));
            }
            assert(back =~= fm@);
        }
    }
    r
}

/// Distinct texts in alphabetical order.
pub fn sort_distinct(v: &Vec<String>) -> (r: Vec<String>)
    requires
        crate::text::texts(v@).no_duplicates(),
    ensures
        ascending(crate::text::texts(r@)),
        crate::text::texts(r@).no_duplicates(),
        crate::text::texts(r@).len() == v@.len(),
        forall|k: Seq<char>| crate::text::texts(v@).contains(k) <==> crate::text::texts(r@).contains(k),
{
    let ghost kl = crate::text::texts(v@);
    let mut r: Vec<String> = Vec::new();
    let mut i: usize = 0;
    while i < v.len()
        invariant
            i <= v@.len(),
            crate::text::texts(v@) == kl,
            kl.no_duplicates(),
            ascending(crate::text::texts(r@)),
            crate::text::texts(r@).len() == i,
            forall|k: Seq<char>| kl.take(i as int).contains(k) <==> crate::text::texts(r@).contains(k),
        decreases v@.len() - i,
    {
        let key = v[i].clone();
        let ghost rv = crate::text::texts(r@);
        let ghost kv = key@;
        assert(kl[i as int] == kv);
        assert(!rv.contains(kv)) by {
            if rv.contains(kv) {
                let j = choose|j: int| 0 <= j < i && kl.take(i as int)[j] == kv;
                assert(kl[j] == kl[i as int]);
            }
        }
        let mut p: usize = 0;
        while p < r.len() && compare_strs(r[p].as_str(), key.as_str()) != Order::Greater
            invariant
                p <= r@.len(),
                rv == crate::text::texts(r@),
                kv == key@,
                forall|m: int| 0 <= m < p ==> chars_order(#[trigger] rv[m], kv) != Order::Greater,
            decreases r@.len() - p,
        {
            assert(rv[p as int] == r@[p as int]@);
            p += 1;
        }
        proof {
            assert forall|m: int| 0 <= m < p implies chars_order(#[trigger] rv[m], kv)
                == Order::Less by {
                if chars_order(rv[m], kv) == Order::Equal {
                    assert(rv[m].subrange(0, 0) =~= kv.subrange(0, 0));
                    lemma_chars_order_equal(rv[m], kv, 0);
                    assert(rv.contains(kv));
                }
            }
            if p < rv.len() {
                assert(chars_order(rv[p as int], kv) == Order::Greater);
            }
            lemma_insert_ascending(rv, kv, p as int);
        }
        r.insert(p, key);
        proof {
            let nv = crate::text::texts(r@);
            assert(nv =~= rv.insert(p as int, kv));
            assert(kl.take(i + 1) =~= kl.take(i as int).push(kv));
            assert forall|k: Seq<char>| kl.take(i + 1).contains(k) <==> nv.contains(k) by {
                lemma_insert_contains(rv, kv, p as int, k);
                lemma_insert_contains(kl.take(i as int), kv, i as int, k);
                assert(kl.take(i as int).insert(i as int, kv) =~= kl.take(i + 1));
            }
        }
        i += 1;
    }
    proof {
        assert(kl.take(v@.len() as int) =~= kl);
        let rv = crate::text::texts(r@);
        assert(rv.no_duplicates()) by {
            assert forall|a: int, b: int| 0 <= a < b < rv.len() implies rv[a] != rv[b] by {
                assert(chars_order(rv[a], rv[b]) == Order::Less);
                lemma_chars_order_flip(rv[a], rv[a], 0);
            }
        }
    }
    r
}

} // verus!
