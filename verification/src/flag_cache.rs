//! Flags that have made it to a release: the enabled flags of the aconfig
//! cache that a release config's files set, and which of them are on the
//! list of exported non-API flags.

use vstd::prelude::*;
use vstd::string::*;

use crate::text::{chars_equal, chars_of, contains_chars, contains_seq, strings_view};

verus! {

/// The state of a flag.
#[derive(Clone, Copy, Debug, PartialEq, Eq, Structural)]
pub enum FlagState {
    Enabled,
    Disabled,
}

/// What the release check reads of a flag of the aconfig cache: its
/// package, name and state, and the source files of its trace.
pub struct CachedFlag {
    pub package: String,
    pub name: String,
    pub state: FlagState,
    pub trace_sources: Vec<String>,
}

/// The fully qualified name of a flag: `<package>.<name>`.
pub open spec fn fully_qualified_name(f: CachedFlag) -> Seq<char> {
    f.package@ + "."@ + f.name@
}

/// The directory of a release config as it appears in source paths:
/// `/<release config>/`.
pub open spec fn release_dir(release_config: Seq<char>) -> Seq<char> {
    "/"@ + release_config + "/"@
}

/// A flag that made it to the release: it is not disabled, and one of its
/// trace sources lies in the release config's directory.
pub open spec fn in_release(f: CachedFlag, release_config: Seq<char>) -> bool {
    &&& f.state != FlagState::Disabled
    &&& exists|i: int|
        0 <= i < f.trace_sources@.len() && contains_seq(
            #[trigger] f.trace_sources@[i]@,
            release_dir(release_config),
        )
}

/// The texts are distinct.
pub open spec fn distinct(v: Seq<Seq<char>>) -> bool {
    forall|i: int, j: int| 0 <= i < j < v.len() ==> #[trigger] v[i] != #[trigger] v[j]
}

/// Adds a text unless present.
fn push_distinct(out: &mut Vec<String>, s: String)
    requires
        distinct(strings_view(old(out)@)),
    ensures
        distinct(strings_view(final(out)@)),
        forall|t: Seq<char>|
            strings_view(final(out)@).contains(t) <==> (strings_view(old(out)@).contains(t) || t
                == s@),
{
    let ghost before = strings_view(out@);
    let mut i: usize = 0;
    while i < out.len()
        invariant
            i <= out@.len(),
            before == strings_view(out@),
            distinct(before),
            forall|k: int| 0 <= k < i ==> before[k] != s@,
        decreases out@.len() - i,
    {
        if out[i] == s {
            assert(before[i as int] == s@);
            return;
        }
        i = i + 1;
    }
    let ghost sv = s@;
    out.push(s);
    assert(strings_view(out@) =~= before.push(sv));
    assert forall|t: Seq<char>| strings_view(out@).contains(t) <==> (before.contains(t) || t == sv) by {
        if strings_view(out@).contains(t) {
            let k = choose|k: int| 0 <= k < strings_view(out@).len() && strings_view(out@)[k] == t;
            if k < before.len() {
                assert(before[k] == t);
            }
        }
        if before.contains(t) {
            let k = choose|k: int| 0 <= k < before.len() && before[k] == t;
            assert(strings_view(out@)[k] == t);
        }
        if t == sv {
            assert(strings_view(out@)[before.len() as int] == t);
        }
    }
}

/// Whether one of the sources lies in the directory.
fn any_source_in(sources: &Vec<String>, dir: &Vec<char>) -> (res: bool)
    ensures
        res == exists|i: int| 0 <= i < sources@.len() && contains_seq(#[trigger] sources@[i]@, dir@),
{
    let mut i: usize = 0;
    while i < sources.len()
        invariant
            i <= sources@.len(),
            forall|k: int| 0 <= k < i ==> !contains_seq(#[trigger] sources@[k]@, dir@),
        decreases sources@.len() - i,
    {
        if contains_chars(&chars_of(sources[i].as_str()), dir) {
            return true;
        }
        i = i + 1;
    }
    false
}

/// The fully qualified names of the flags that made it to the release
/// config, each once: flags that are not disabled and that a file of the
/// release config's directory sets.
pub fn extract_flags_from_cache(parsed_flags: &Vec<CachedFlag>, release_config: &str) -> (res: Vec<
    String,
>)
    ensures
        distinct(strings_view(res@)),
        forall|t: Seq<char>|
            strings_view(res@).contains(t) <==> exists|i: int|
                0 <= i < parsed_flags@.len() && in_release(#[trigger] parsed_flags@[i], release_config@)
                    && fully_qualified_name(parsed_flags@[i]) == t,
{
    let mut dir = String::from_str("/");
    dir.append(release_config);
    dir.append("/");
    let dir_chars = chars_of(dir.as_str());
    let mut out: Vec<String> = Vec::new();
    let mut i: usize = 0;
    while i < parsed_flags.len()
        invariant
            i <= parsed_flags@.len(),
            dir_chars@ == release_dir(release_config@),
            distinct(strings_view(out@)),
            forall|t: Seq<char>|
                strings_view(out@).contains(t) <==> exists|k: int|
                    0 <= k < i && in_release(#[trigger] parsed_flags@[k], release_config@)
                        && fully_qualified_name(parsed_flags@[k]) == t,
        decreases parsed_flags@.len() - i,
    {
        let flag = &parsed_flags[i];
        let ghost before = strings_view(out@);
        if flag.state != FlagState::Disabled && any_source_in(&flag.trace_sources, &dir_chars) {
            let mut name = flag.package.clone();
            name.append(".");
            name.append(flag.name.as_str());
            push_distinct(&mut out, name);
        }
        assert forall|t: Seq<char>| strings_view(out@).contains(t) <==> exists|k: int|
            0 <= k < i + 1 && in_release(#[trigger] parsed_flags@[k], release_config@)
                && fully_qualified_name(parsed_flags@[k]) == t by {
            if exists|k: int|
                0 <= k < i + 1 && in_release(#[trigger] parsed_flags@[k], release_config@)
                    && fully_qualified_name(parsed_flags@[k]) == t {
                let k = choose|k: int|
                    0 <= k < i + 1 && in_release(#[trigger] parsed_flags@[k], release_config@)
                        && fully_qualified_name(parsed_flags@[k]) == t;
                if k < i {
                    assert(before.contains(t));
                }
            }
        }
        i = i + 1;
    }
    out
}

/// The finalized flags that are on the exception list, each once.
pub fn finalized_exception_flags(finalized: &Vec<String>, exceptions: &Vec<String>) -> (res: Vec<
    String,
>)
    ensures
        distinct(strings_view(res@)),
        forall|t: Seq<char>|
            strings_view(res@).contains(t) <==> (strings_view(finalized@).contains(t)
                && strings_view(exceptions@).contains(t)),
{
    let mut out: Vec<String> = Vec::new();
    let mut i: usize = 0;
    while i < finalized.len()
        invariant
            i <= finalized@.len(),
            distinct(strings_view(out@)),
            forall|t: Seq<char>|
                strings_view(out@).contains(t) <==> (strings_view(finalized@.take(i as int)).contains(
                    t,
                ) && strings_view(exceptions@).contains(t)),
        decreases finalized@.len() - i,
    {
        assert(strings_view(finalized@.take(i + 1)) =~= strings_view(finalized@.take(i as int)).push(
            finalized@[i as int]@,
        ));
        let mut listed = false;
        let mut j: usize = 0;
        while j < exceptions.len()
            invariant
                j <= exceptions@.len(),
                i < finalized@.len(),
                listed == exists|k: int| 0 <= k < j && exceptions@[k]@ == finalized@[i as int]@,
            decreases exceptions@.len() - j,
        {
            if exceptions[j] == finalized[i] {
                listed = true;
            }
            j = j + 1;
        }
        assert(listed == strings_view(exceptions@).contains(finalized@[i as int]@)) by {
            if listed {
                let k = choose|k: int|
                    0 <= k < exceptions@.len() && exceptions@[k]@ == finalized@[i as int]@;
                assert(strings_view(exceptions@)[k] == finalized@[i as int]@);
            }
            if strings_view(exceptions@).contains(finalized@[i as int]@) {
                let k = choose|k: int|
                    0 <= k < strings_view(exceptions@).len() && strings_view(exceptions@)[k]
                        == finalized@[i as int]@;
                assert(exceptions@[k]@ == finalized@[i as int]@);
            }
        }
        if listed {
            push_distinct(&mut out, finalized[i].clone());
        }
        assert forall|t: Seq<char>| strings_view(out@).contains(t) <==> (strings_view(
            finalized@.take(i + 1),
        ).contains(t) && strings_view(exceptions@).contains(t)) by {
            let pre = strings_view(finalized@.take(i as int));
            let post = strings_view(finalized@.take(i + 1));
            if post.contains(t) {
                let k = choose|k: int| 0 <= k < post.len() && post[k] == t;
                if k < pre.len() {
                    assert(pre[k] == t);
                }
            }
            if pre.contains(t) {
                let k = choose|k: int| 0 <= k < pre.len() && pre[k] == t;
                assert(post[k] == t);
            }
            if t == finalized@[i as int]@ {
                assert(post[i as int] == t);
            }
        }
        i = i + 1;
    }
    assert(finalized@.take(finalized@.len() as int) =~= finalized@);
    out
}

/// The release config to check: the given one, where `next` stands for
/// the one it aliases, and that one where none is given.
pub open spec fn spec_effective_release_config(given: Option<Seq<char>>) -> Seq<char> {
    match given {
        Some(c) => if c == "next"@ {
            "cp2a"@
        } else {
            c
        },
        None => "cp2a"@,
    }
}

/// The release config to check.
pub fn effective_release_config(given: Option<String>) -> (res: String)
    ensures
        res@ == spec_effective_release_config(
            match given {
                Some(c) => Some(c@),
                None => None,
            },
        ),
{
    match given {
        Some(c) => {
            if chars_equal(&chars_of(c.as_str()), &chars_of("next")) {
                String::from_str("cp2a")
            } else {
                c
            }
        },
        None => String::from_str("cp2a"),
    }
}

} // verus!
