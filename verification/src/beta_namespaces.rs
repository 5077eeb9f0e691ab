//! Mainline Beta namespace configs: the namespaces, each with its container
//! and whether its flags may be exported, listed in order of name for the
//! generated Rust tables.

use vstd::prelude::*;

use crate::text::{
    chars_of, lemma_text_lt_transitive, lemma_text_lt_trichotomy, strictly_sorted, text_less,
    text_lt,
};

verus! {

/// The settings of a namespace.
pub struct Namespace {
    pub container: String,
    pub allow_exported: bool,
}

/// The namespace configs: each namespace by its name.
pub struct Config {
    pub namespaces: Vec<(String, Namespace)>,
}

/// The mathematical value of a named namespace.
pub open spec fn entry_view(e: (String, Namespace)) -> (Seq<char>, Seq<char>, bool) {
    (e.0@, e.1.container@, e.1.allow_exported)
}

/// The values of the named namespaces.
pub open spec fn entries_view(v: Seq<(String, Namespace)>) -> Seq<(Seq<char>, Seq<char>, bool)> {
    v.map_values(|e: (String, Namespace)| entry_view(e))
}

/// The names of the namespaces.
pub open spec fn names(v: Seq<(String, Namespace)>) -> Seq<Seq<char>> {
    v.map_values(|e: (String, Namespace)| e.0@)
}

impl Config {
    /// Every namespace is named once, as in a map.
    pub open spec fn well_formed(&self) -> bool {
        forall|i: int, j: int|
            0 <= i < j < self.namespaces@.len() ==> #[trigger] self.namespaces@[i].0@
                != #[trigger] self.namespaces@[j].0@
    }

    /// The namespaces in increasing order of name.
    pub fn sorted_namespaces(&self) -> (res: Vec<(String, Namespace)>)
        requires
            self.well_formed(),
        ensures
            strictly_sorted(names(res@)),
            res@.len() == self.namespaces@.len(),
            forall|e: (Seq<char>, Seq<char>, bool)|
                entries_view(res@).contains(e) <==> entries_view(self.namespaces@).contains(e),
    {
        let mut out: Vec<(String, Namespace)> = Vec::new();
        let mut k: usize = 0;
        while k < self.namespaces.len()
            invariant
                k <= self.namespaces@.len(),
                self.well_formed(),
                out@.len() == k,
                strictly_sorted(names(out@)),
                forall|e: (Seq<char>, Seq<char>, bool)|
                    entries_view(out@).contains(e) <==> entries_view(
                        self.namespaces@.take(k as int),
                    ).contains(e),
            decreases self.namespaces@.len() - k,
        {
            let (name, ns) = &self.namespaces[k];
            let entry = (name.clone(), Namespace { container: ns.container.clone(), allow_exported: ns.allow_exported });
            let ghost ev = entry_view(entry);
            assert(ev == entry_view(self.namespaces@[k as int]));
            assert(!names(out@).contains(ev.0)) by {
                if names(out@).contains(ev.0) {
                    let o = choose|o: int| 0 <= o < names(out@).len() && names(out@)[o] == ev.0;
                    assert(entries_view(out@)[o] == entry_view(out@[o]));
                    assert(entries_view(out@).contains(entry_view(out@[o])));
                    let m = choose|m: int|
                        0 <= m < k && entries_view(self.namespaces@.take(k as int))[m] == entry_view(
                            out@[o],
                        );
                    assert(self.namespaces@[m].0@ == self.namespaces@[k as int].0@);
                }
            }
            let ghost before = entries_view(out@);
            assert(self.namespaces@.take(k + 1) =~= self.namespaces@.take(k as int).push(
                self.namespaces@[k as int],
            ));
            assert(entries_view(self.namespaces@.take(k + 1)) =~= entries_view(
                self.namespaces@.take(k as int),
            ).push(ev));
            insert_entry(&mut out, entry);
            assert forall|e: (Seq<char>, Seq<char>, bool)| entries_view(out@).contains(e) <==> entries_view(
                self.namespaces@.take(k + 1),
            ).contains(e) by {
                let pre = entries_view(self.namespaces@.take(k as int));
                let post = entries_view(self.namespaces@.take(k + 1));
                assert(before.contains(e) <==> pre.contains(e));
                assert(entries_view(out@).contains(e) <==> (before.contains(e) || e == ev));
                if post.contains(e) {
                    let m = choose|m: int| 0 <= m < post.len() && post[m] == e;
                    if m < k {
                        assert(pre[m] == e);
                    }
                }
                if pre.contains(e) {
                    let m = choose|m: int| 0 <= m < pre.len() && pre[m] == e;
                    assert(post[m] == e);
                }
                if e == ev {
                    assert(post[k as int] == e);
                }
            }
            k = k + 1;
        }
        assert(self.namespaces@.take(k as int) =~= self.namespaces@);
        out
    }
}

/// Inserts a named namespace whose name is new in its place among the
/// namespaces sorted by name.
fn insert_entry(out: &mut Vec<(String, Namespace)>, entry: (String, Namespace))
    requires
        strictly_sorted(names(old(out)@)),
        !names(old(out)@).contains(entry.0@),
    ensures
        strictly_sorted(names(final(out)@)),
        final(out)@.len() == old(out)@.len() + 1,
        forall|e: (Seq<char>, Seq<char>, bool)|
            entries_view(final(out)@).contains(e) <==> (entries_view(old(out)@).contains(e) || e
                == entry_view(entry)),
{
    let ghost old_n = names(out@);
    let ghost old_e = entries_view(out@);
    let ghost key_v = entry.0@;
    let ghost ev = entry_view(entry);
    let key = chars_of(entry.0.as_str());
    let mut p: usize = 0;
    let mut searching = true;
    while searching && p < out.len()
        invariant
            p <= out@.len(),
            old_n == names(out@),
            key@ == key_v,
            forall|i: int| 0 <= i < p ==> text_lt(#[trigger] old_n[i], key_v),
            !searching ==> p < out@.len() && !text_lt(old_n[p as int], key_v),
        decreases out@.len() - p + if searching { 1int } else { 0int },
    {
        let cur = chars_of(out[p].0.as_str());
        if text_less(&cur, &key) {
            p = p + 1;
        } else {
            searching = false;
        }
    }
    let ghost entry_ghost = entry;
    out.insert(p, entry);
    let ghost new_n = names(out@);
    assert(out@ =~= old(out)@.insert(p as int, entry_ghost));
    assert(new_n =~= old_n.insert(p as int, key_v));
    assert(entries_view(out@) =~= old_e.insert(p as int, ev));
    assert forall|i: int, j: int| 0 <= i < j < new_n.len() implies text_lt(
        #[trigger] new_n[i],
        #[trigger] new_n[j],
    ) by {
        if p < old_n.len() {
            lemma_text_lt_trichotomy(old_n[p as int], key_v);
            assert(old_n[p as int] != key_v);
        }
        if j > p + 1 {
            lemma_text_lt_transitive(key_v, old_n[p as int], new_n[j]);
        }
        if i < p && j > p {
            lemma_text_lt_transitive(new_n[i], key_v, new_n[j]);
        }
    }
    let ghost new_e = entries_view(out@);
    assert forall|e: (Seq<char>, Seq<char>, bool)| new_e.contains(e) <==> (old_e.contains(e) || e == ev) by {
        if new_e.contains(e) {
            let m = choose|m: int| 0 <= m < new_e.len() && new_e[m] == e;
            if m < p {
                assert(old_e[m] == e);
            } else if m > p {
                assert(old_e[m - 1] == e);
            }
        }
        if old_e.contains(e) {
            let m = choose|m: int| 0 <= m < old_e.len() && old_e[m] == e;
            if m < p {
                assert(new_e[m] == e);
            } else {
                assert(new_e[m + 1] == e);
            }
        }
        if e == ev {
            assert(new_e[p as int] == e);
        }
    }
}

} // verus!
