//! Showing an entity: the fields listed below its id, type and title.

use vstd::prelude::*;
use crate::fields::Frontmatter;
use crate::frontmatter::{ascending, sorted_keys};
use crate::text::{str_equal, texts};
use crate::value::display;

verus! {

/// The arguments of `cortx show`.
#[derive(Debug)]
pub struct ShowArgs {
    pub id: String,
}

/// The fields that the header already shows.
pub open spec fn in_header(k: Seq<char>) -> bool {
    k == "id"@ || k == "type"@ || k == "title"@ || k == "name"@
}

/// The names of a list of shown fields.
pub open spec fn shown_names(v: Seq<(String, String)>) -> Seq<Seq<char>> {
    v.map_values(|p: (String, String)| p.0@)
}

/// The names among the first `n` of `kv` that the header does not show.
pub open spec fn below_header(kv: Seq<Seq<char>>, n: int) -> Seq<Seq<char>>
    decreases n,
{
    if n <= 0 || n > kv.len() {
        Seq::empty()
    } else if in_header(kv[n - 1]) {
        below_header(kv, n - 1)
    } else {
        below_header(kv, n - 1).push(kv[n - 1])
    }
}

proof fn lemma_below_header(kv: Seq<Seq<char>>, n: int)
    requires
        0 <= n <= kv.len(),
        ascending(kv),
    ensures
        forall|k: Seq<char>|
            #![trigger below_header(kv, n).contains(k)]
            #![trigger kv.take(n).contains(k)]
            below_header(kv, n).contains(k) <==> (kv.take(n).contains(k) && !in_header(k)),
        forall|x: Seq<char>| below_header(kv, n).contains(x) ==> exists|j: int| 0 <= j < n && kv[j] == x,
        ascending(below_header(kv, n)),
    decreases n,
{
    if n > 0 {
        lemma_below_header(kv, n - 1);
        let prev = below_header(kv, n - 1);
        let x = kv[n - 1];
        assert(kv.take(n) =~= kv.take(n - 1).push(x));
        assert forall|k: Seq<char>|
            #![trigger below_header(kv, n).contains(k)]
            #![trigger kv.take(n).contains(k)]
            below_header(kv, n).contains(k) <==> (kv.take(n).contains(k) && !in_header(k)) by {
            crate::frontmatter::lemma_insert_contains(kv.take(n - 1), x, n - 1, k);
            assert(kv.take(n - 1).insert(n - 1, x) =~= kv.take(n));
            if !in_header(x) {
                crate::frontmatter::lemma_insert_contains(prev, x, prev.len() as int, k);
                assert(prev.insert(prev.len() as int, x) =~= below_header(kv, n));
            }
        }
        assert forall|y: Seq<char>| below_header(kv, n).contains(y) implies exists|j: int|
            0 <= j < n && kv[j] == y by {
            if !in_header(x) {
                crate::frontmatter::lemma_insert_contains(prev, x, prev.len() as int, y);
                assert(prev.insert(prev.len() as int, x) =~= below_header(kv, n));
                if y == x {
                    assert(kv[n - 1] == y);
                }
            }
        }
        if !in_header(x) {
            let cur = below_header(kv, n);
            assert forall|a: int, b: int| 0 <= a < b < cur.len() implies crate::value::chars_order(
                #[trigger] cur[a],
                #[trigger] cur[b],
            ) == crate::value::Order::Less by {
                if b < prev.len() {
                    assert(cur[a] == prev[a] && cur[b] == prev[b]);
                } else {
                    assert(cur[a] == prev[a]);
                    assert(prev.contains(prev[a]));
                    let j = choose|j: int| 0 <= j < n - 1 && kv[j] == prev[a];
                    assert(cur[b] == kv[n - 1]);
                }
            }
        }
    } else {
        assert(kv.take(0) =~= Seq::<Seq<char>>::empty());
        assert(below_header(kv, 0) =~= Seq::<Seq<char>>::empty());
    }
}

/// The fields of an entity below its header, in alphabetical order, each
/// with its value as it displays.
pub fn shown_fields(fm: &Frontmatter) -> (r: Vec<(String, String)>)
    ensures
        ascending(shown_names(r@)),
        forall|k: Seq<char>| shown_names(r@).contains(k) <==> (fm@.contains_key(k) && !in_header(k)),
        forall|i: int| 0 <= i < r@.len() ==> (#[trigger] r@[i]).1@ == display(fm@[r@[i].0@]),
{
    let keys = sorted_keys(fm);
    let ghost kv = texts(keys@);
    let mut r: Vec<(String, String)> = Vec::new();
    let mut i: usize = 0;
    while i < keys.len()
        invariant
            i <= keys@.len(),
            kv == texts(keys@),
            forall|k: Seq<char>| fm@.contains_key(k) <==> kv.contains(k),
            shown_names(r@) == below_header(kv, i as int),
            forall|m: int| 0 <= m < r@.len() ==> (#[trigger] r@[m]).1@ == display(fm@[r@[m].0@]),
        decreases keys@.len() - i,
    {
        let k = keys[i].as_str();
        let ghost kk = k@;
        assert(kv[i as int] == kk);
        let hidden = str_equal(k, "id") || str_equal(k, "type") || str_equal(k, "title") || str_equal(
            k,
            "name",
        );
        assert(hidden == in_header(kk));
        let ghost before = shown_names(r@);
        if !hidden {
            assert(kv.contains(kk));
            let text = match fm.get(k) {
                Some(v) => v.to_display_string(),
                None => String::new(),
            };
            r.push((k.to_owned(), text));
            assert(shown_names(r@) =~= before.push(kk));
        }
        i += 1;
    }
    proof {
        lemma_below_header(kv, kv.len() as int);
        assert(kv.take(kv.len() as int) =~= kv);
    }
    r
}

} // verus!
