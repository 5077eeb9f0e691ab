//! Decisions of the module SDK unpacker: where the entries of a mainline
//! module SDK zip go in prebuilts/module_sdk and in prebuilts/sdk/extensions.

use vstd::prelude::*;
use vstd::string::*;

use crate::paths::{join_path, path_push};
use crate::regex_match::{captures, groups_view, regex_captures, regex_compiles};
use crate::text::{
    chars_equal, chars_of, debug_str, decimal, decimal_string, ends_with, pairs_view, str_debug, ends_with_chars, push_chars, replace_all, replace_chars,
    starts_with, starts_with_chars, string_from_chars,
};
use crate::zip_archive::{file_names, zip_entry_names};

verus! {

/// Message of the error for bytes that are no zip archive.
pub open spec fn archive_error_msg() -> Seq<char> {
    "parse input as zip archive"@
}

/// Message of the error for a regular expression that does not compile.
pub open spec fn pattern_error_msg() -> Seq<char> {
    "invalid regular expression"@
}

/// Message of the error for a match that lacks a capture group.
pub open spec fn missing_group_msg() -> Seq<char> {
    "capture group did not participate in the match"@
}

/// Where an entry of a module SDK goes, relative to the module's directory:
/// its own path, with `.auto` appended to Android.bp files.
pub open spec fn module_dest(name: Seq<char>) -> Seq<char> {
    if name == "Android.bp"@ || ends_with(name, "/Android.bp"@) {
        name + ".auto"@
    } else {
        name
    }
}

/// Each entry name with where it goes.
pub open spec fn module_pairs(names: Seq<Seq<char>>) -> Seq<(Seq<char>, Seq<char>)> {
    names.map_values(|n: Seq<char>| (n, module_dest(n)))
}

/// The entries of a module SDK archive, each with where it goes.
pub open spec fn spec_process_module_sdk(archive: Seq<u8>) -> Result<
    Seq<(Seq<char>, Seq<char>)>,
    Seq<char>,
> {
    match zip_entry_names(archive) {
        None => Err(archive_error_msg()),
        Some(names) => Ok(module_pairs(names)),
    }
}

/// The view of a result whose error is a message.
pub open spec fn pairs_result_view(r: Result<Vec<(String, String)>, String>) -> Result<
    Seq<(Seq<char>, Seq<char>)>,
    Seq<char>,
> {
    match r {
        Ok(v) => Ok(pairs_view(v@)),
        Err(e) => Err(e@),
    }
}

/// Lists each entry of a module SDK archive with where it goes.
pub fn process_module_sdk(archive: &[u8]) -> (res: Result<Vec<(String, String)>, String>)
    ensures
        pairs_result_view(res) == spec_process_module_sdk(archive@),
{
    let names = match file_names(archive) {
        Ok(names) => names,
        Err(_) => {
            return Err(String::from_str("parse input as zip archive"));
        },
    };
    let ghost spec_names = zip_entry_names(archive@)->Some_0;
    let android_bp = chars_of("Android.bp");
    let slash_android_bp = chars_of("/Android.bp");
    let auto = chars_of(".auto");
    let mut out: Vec<(String, String)> = Vec::new();
    let mut i: usize = 0;
    assert(pairs_view(out@) =~= module_pairs(spec_names.take(0)));
    while i < names.len()
        invariant
            i <= names@.len(),
            names@.map_values(|s: String| s@) == spec_names,
            android_bp@ == "Android.bp"@,
            slash_android_bp@ == "/Android.bp"@,
            auto@ == ".auto"@,
            pairs_view(out@) == module_pairs(spec_names.take(i as int)),
        decreases names@.len() - i,
    {
        let src = names[i].clone();
        let chars = chars_of(names[i].as_str());
        assert(spec_names[i as int] == names@[i as int]@);
        let dest = if chars_equal(&chars, &android_bp) || ends_with_chars(&chars, &slash_android_bp) {
            let mut d = chars_of(names[i].as_str());
            push_chars(&mut d, &auto);
            string_from_chars(&d)
        } else {
            names[i].clone()
        };
        assert(dest@ == module_dest(spec_names[i as int]));
        assert(src@ == spec_names[i as int]);
        let ghost before = pairs_view(out@);
        out.push((src, dest));
        assert(pairs_view(out@) =~= before.push((spec_names[i as int], module_dest(spec_names[i as int]))));
        assert(module_pairs(spec_names.take(i + 1)) =~= module_pairs(spec_names.take(i as int)).push(
            (spec_names[i as int], module_dest(spec_names[i as int])),
        ));
        i = i + 1;
    }
    assert(spec_names.take(names@.len() as int) == spec_names);
    Ok(out)
}

/// API tracking files of conscrypt that SDK extensions do not consider.
pub open spec fn spec_is_ignored(filename: Seq<char>) -> bool {
    starts_with(filename, "conscrypt.module.intra.core.api"@) || starts_with(
        filename,
        "conscrypt.module.platform.api"@,
    )
}

/// Whether an SDK library file is left out of the SDK extensions.
pub fn is_ignored(filename: &str) -> (res: bool)
    ensures
        res == spec_is_ignored(filename@),
{
    // conscrypt has some legacy API tracking files that we don't consider for extensions
    let name = chars_of(filename);
    starts_with_chars(&name, &chars_of("conscrypt.module.intra.core.api")) || starts_with_chars(
        &name,
        &chars_of("conscrypt.module.platform.api"),
    )
}

/// The prebuilts name of an SDK library file: the art and conscrypt API
/// names shortened, and `-stubs` dropped.
pub open spec fn spec_tweak_filename(filename: Seq<char>) -> Seq<char> {
    replace_all(
        replace_all(
            replace_all(filename, "art.module.public.api"@, "art"@),
            "conscrypt.module.public.api"@,
            "conscrypt"@,
        ),
        "-stubs"@,
        Seq::empty(),
    )
}

/// Renames an SDK library file as prebuilts/sdk names it.
pub fn tweak_filename(filename: &str) -> (res: String)
    ensures
        res@ == spec_tweak_filename(filename@),
{
    // for legacy reasons, art and conscrypt file names in the SDKs
    // (*.module.public.api) do not match their expected filename in prebuilts/sdk
    // (art, conscrypt), so rename them
    //
    // the stub jar artifacts from official builds are named '*-stubs.jar', but the
    // convention for the copies in prebuilts/sdk is just '*.jar', so fix that
    let art_api = chars_of("art.module.public.api");
    let conscrypt_api = chars_of("conscrypt.module.public.api");
    let stubs = chars_of("-stubs");
    proof {
        reveal_strlit("art.module.public.api");
        reveal_strlit("conscrypt.module.public.api");
        reveal_strlit("-stubs");
    }
    let a = replace_chars(&chars_of(filename), &art_api, &chars_of("art"));
    let b = replace_chars(&a, &conscrypt_api, &chars_of("conscrypt"));
    let c = replace_chars(&b, &stubs, &Vec::new());
    string_from_chars(&c)
}

/// The pattern that picks API files and stub jars of SDK libraries: the API
/// type and the file name.
pub const SDK_LIBRARY_PATTERN: &'static str = "sdk_library/(.*?)/(.*?\\.(?:txt|jar))";

/// Where an SDK library file goes in prebuilts/sdk/extensions: API text
/// files under `<api type>/api/`, jars under `<api type>/`.
pub open spec fn extension_dest(api_type: Seq<char>, entry_filename: Seq<char>) -> Seq<char> {
    if ends_with(entry_filename, ".txt"@) {
        api_type + "/api/"@ + spec_tweak_filename(entry_filename)
    } else {
        api_type + "/"@ + spec_tweak_filename(entry_filename)
    }
}

/// What a matched SDK library file contributes to the SDK extensions:
/// nothing where the file is ignored, else the matched path and where it
/// goes.
pub open spec fn extension_pair(whole: Seq<char>, api_type: Seq<char>, entry_filename: Seq<char>) -> Option<
    (Seq<char>, Seq<char>),
> {
    if spec_is_ignored(entry_filename) {
        None
    } else {
        Some((whole, extension_dest(api_type, entry_filename)))
    }
}

/// What an archive entry contributes to the SDK extensions: nothing where
/// the pattern does not match or the file is ignored; else the matched path
/// and where it goes.
pub open spec fn extension_entry(name: Seq<char>) -> Result<Option<(Seq<char>, Seq<char>)>, Seq<char>> {
    if !regex_compiles(SDK_LIBRARY_PATTERN@) {
        Err(pattern_error_msg())
    } else {
        match regex_captures(SDK_LIBRARY_PATTERN@, name) {
            None => Ok(None),
            Some(g) => if g.len() < 3 || g[1] is None || g[2] is None {
                Err(missing_group_msg())
            } else {
                Ok(extension_pair(g[0]->Some_0, g[1]->Some_0, g[2]->Some_0))
            },
        }
    }
}

/// Adds a pair unless it is present already.
pub open spec fn insert_pair(acc: Seq<(Seq<char>, Seq<char>)>, p: (Seq<char>, Seq<char>)) -> Seq<
    (Seq<char>, Seq<char>),
> {
    if acc.contains(p) {
        acc
    } else {
        acc.push(p)
    }
}

/// The pairs, each once, in the order in which they first appear.
pub open spec fn distinct_pairs(s: Seq<(Seq<char>, Seq<char>)>) -> Seq<(Seq<char>, Seq<char>)>
    decreases s.len(),
{
    if s.len() == 0 {
        Seq::empty()
    } else {
        insert_pair(distinct_pairs(s.drop_last()), s.last())
    }
}

/// Keeping each pair once leaves no pair twice and drops no pair.
pub proof fn lemma_distinct_pairs(s: Seq<(Seq<char>, Seq<char>)>)
    ensures
        distinct_pairs(s).no_duplicates(),
        forall|p: (Seq<char>, Seq<char>)| #[trigger] distinct_pairs(s).contains(p) <==> s.contains(p),
    decreases s.len(),
{
    if s.len() > 0 {
        let init = s.drop_last();
        lemma_distinct_pairs(init);
        let d = distinct_pairs(init);
        let x = s.last();
        assert(s =~= init.push(x));
        assert forall|p: (Seq<char>, Seq<char>)| #[trigger] distinct_pairs(s).contains(p) <==> s.contains(p) by {
            if !d.contains(x) {
                assert(d.push(x)[d.len() as int] == x);
                if d.push(x).contains(p) && p != x {
                    let k = choose|k: int| 0 <= k < d.push(x).len() && d.push(x)[k] == p;
                    assert(d[k] == p);
                }
                if d.contains(p) {
                    let k = choose|k: int| 0 <= k < d.len() && d[k] == p;
                    assert(d.push(x)[k] == p);
                }
            }
            if s.contains(p) && p != x {
                let k = choose|k: int| 0 <= k < s.len() && s[k] == p;
                assert(init[k] == p);
            }
            if init.contains(p) {
                let k = choose|k: int| 0 <= k < init.len() && init[k] == p;
                assert(s[k] == p);
            }
            if p == x {
                assert(s[s.len() - 1] == p);
            }
        }
    }
}

/// The distinct pairs that the entries contribute to the SDK extensions, in
/// the order in which they first appear.
pub open spec fn extension_pairs(names: Seq<Seq<char>>) -> Result<Seq<(Seq<char>, Seq<char>)>, Seq<char>>
    decreases names.len(),
{
    if names.len() == 0 {
        Ok(Seq::empty())
    } else {
        match extension_pairs(names.drop_last()) {
            Err(e) => Err(e),
            Ok(acc) => match extension_entry(names.last()) {
                Err(e) => Err(e),
                Ok(None) => Ok(acc),
                Ok(Some(p)) => Ok(insert_pair(acc, p)),
            },
        }
    }
}

/// An error that the entries up to `k` produce is the error of all of them.
pub proof fn lemma_extension_error_propagates(names: Seq<Seq<char>>, k: int)
    requires
        0 <= k <= names.len(),
        extension_pairs(names.take(k)) is Err,
    ensures
        extension_pairs(names) == extension_pairs(names.take(k)),
    decreases names.len() - k,
{
    if k < names.len() {
        assert(names.take(k + 1).drop_last() == names.take(k));
        lemma_extension_error_propagates(names, k + 1);
    } else {
        assert(names.take(k) == names);
    }
}

/// The SDK extension files of a module SDK archive, each with where it goes.
pub open spec fn spec_process_platform_sdk_extensions(archive: Seq<u8>) -> Result<
    Seq<(Seq<char>, Seq<char>)>,
    Seq<char>,
> {
    match zip_entry_names(archive) {
        None => Err(archive_error_msg()),
        Some(names) => extension_pairs(names),
    }
}

/// The texts of capture groups 0, 1 and 2, where all three are present.
fn three_groups(g: &Vec<Option<String>>) -> (res: Option<(String, String, String)>)
    ensures
        match res {
            Some((a, b, c)) => g@.len() >= 3 && g@[0] == Some(a) && g@[1] == Some(b) && g@[2] == Some(
                c,
            ),
            None => g@.len() < 3 || g@[0] is None || g@[1] is None || g@[2] is None,
        },
{
    if g.len() < 3 {
        return None;
    }
    match (&g[0], &g[1], &g[2]) {
        (Some(a), Some(b), Some(c)) => Some((a.clone(), b.clone(), c.clone())),
        _ => None,
    }
}

/// Adds a pair unless an equal pair is present already.
fn push_unique(out: &mut Vec<(String, String)>, p: (String, String))
    ensures
        pairs_view(final(out)@) == insert_pair(pairs_view(old(out)@), (p.0@, p.1@)),
{
    let ghost acc = pairs_view(out@);
    let mut i: usize = 0;
    while i < out.len()
        invariant
            i <= out@.len(),
            acc == pairs_view(out@),
            forall|k: int| 0 <= k < i ==> acc[k] != (p.0@, p.1@),
        decreases out@.len() - i,
    {
        if out[i].0 == p.0 && out[i].1 == p.1 {
            assert(acc[i as int] == (p.0@, p.1@));
            assert(acc.contains((p.0@, p.1@)));
            return;
        }
        i = i + 1;
    }
    assert(!acc.contains((p.0@, p.1@)));
    out.push(p);
    assert(pairs_view(out@) =~= acc.push((p.0@, p.1@)));
}

/// What a matched SDK library file contributes to the SDK extensions,
/// given the match (`whole`), its API type and its file name: nothing where
/// the file is ignored, else the match and where it goes.
pub fn extension_copy(whole: &str, api_type: &str, entry_filename: &str) -> (res: Option<
    (String, String),
>)
    ensures
        match (res, extension_pair(whole@, api_type@, entry_filename@)) {
            (None, None) => true,
            (Some((a, b)), Some((c, d))) => a@ == c && b@ == d,
            _ => false,
        },
{
    if is_ignored(entry_filename) {
        return None;
    }
    let filename = tweak_filename(entry_filename);
    let mut dest = chars_of(api_type);
    if ends_with_chars(&chars_of(entry_filename), &chars_of(".txt")) {
        push_chars(&mut dest, &chars_of("/api/"));
    } else {
        push_chars(&mut dest, &chars_of("/"));
    }
    push_chars(&mut dest, &chars_of(filename.as_str()));
    Some((String::from_str(whole), string_from_chars(&dest)))
}

/// Lists the SDK extension files of a module SDK archive with where each
/// goes (see [`spec_process_platform_sdk_extensions`]).
pub fn process_platform_sdk_extensions(archive: &[u8]) -> (res: Result<Vec<(String, String)>, String>)
    ensures
        pairs_result_view(res) == spec_process_platform_sdk_extensions(archive@),
{
    let names = match file_names(archive) {
        Ok(names) => names,
        Err(_) => {
            return Err(String::from_str("parse input as zip archive"));
        },
    };
    let ghost spec_names = zip_entry_names(archive@)->Some_0;
    let mut out: Vec<(String, String)> = Vec::new();
    let mut i: usize = 0;
    assert(spec_names.take(0) == Seq::<Seq<char>>::empty());
    assert(pairs_view(out@) == Seq::<(Seq<char>, Seq<char>)>::empty());
    while i < names.len()
        invariant
            i <= names@.len(),
            names@.map_values(|s: String| s@) == spec_names,
            zip_entry_names(archive@) == Some(spec_names),
            extension_pairs(spec_names.take(i as int)) == Ok::<
                Seq<(Seq<char>, Seq<char>)>,
                Seq<char>,
            >(pairs_view(out@)),
        decreases names@.len() - i,
    {
        assert(spec_names.take(i + 1).drop_last() == spec_names.take(i as int));
        assert(spec_names[i as int] == names@[i as int]@);
        assert(spec_names.take(i + 1).last() == spec_names[i as int]);
        let caps = match captures(SDK_LIBRARY_PATTERN, names[i].as_str()) {
            Ok(caps) => caps,
            Err(_) => {
                proof {
                    assert(!regex_compiles(SDK_LIBRARY_PATTERN@));
                    assert(extension_entry(spec_names[i as int]) is Err);
                    lemma_extension_error_propagates(spec_names, i + 1);
                }
                return Err(String::from_str("invalid regular expression"));
            },
        };
        if let Some(groups) = caps {
            let (entry_path, api_type, entry_filename) = match three_groups(&groups) {
                Some(t) => t,
                None => {
                    proof {
                        let g = groups_view(groups@);
                        assert(g.len() < 3 || g[1] is None || g[2] is None);
                        lemma_extension_error_propagates(spec_names, i + 1);
                    }
                    return Err(String::from_str("capture group did not participate in the match"));
                },
            };
            assert(groups_view(groups@)[0] == Some(entry_path@));
            assert(groups_view(groups@)[1] == Some(api_type@));
            assert(groups_view(groups@)[2] == Some(entry_filename@));
            if let Some(p) = extension_copy(
                entry_path.as_str(),
                api_type.as_str(),
                entry_filename.as_str(),
            ) {
                push_unique(&mut out, p);
            }
        }
        i = i + 1;
    }
    assert(spec_names.take(names@.len() as int) == spec_names);
    Ok(out)
}

/// The pattern that picks the module name out of the path of a module SDK
/// zip.
pub const MODULE_SDK_ZIP_PATTERN: &'static str =
    "/mainline-sdks/for-next-build/current/(.*?)/sdk/.*\\.zip";

/// The project of a module: that of the first entry of the module info
/// with its name.
pub open spec fn module_project(info: Seq<(Seq<char>, Seq<char>)>, name: Seq<char>) -> Option<
    Seq<char>,
>
    decreases info.len(),
{
    if info.len() == 0 {
        None
    } else {
        match module_project(info.drop_last(), name) {
            Some(p) => Some(p),
            None => if info.last().0 == name {
                Some(info.last().1)
            } else {
                None
            },
        }
    }
}

/// Message of the error for a zip path that the pattern does not match.
pub open spec fn unmatched_zip_msg(zip_path: Seq<char>) -> Seq<char> {
    "regex does not match string "@ + str_debug(zip_path)
}

/// Message of the error for a module missing from the module info.
pub open spec fn unlisted_module_msg(name: Seq<char>) -> Seq<char> {
    name + " found in module SDK dir but not listed in mainline-modules-info.json"@
}

/// Each pair with its destination joined onto `dir`.
pub open spec fn under_dir(pairs: Seq<(Seq<char>, Seq<char>)>, dir: Seq<char>) -> Seq<
    (Seq<char>, Seq<char>),
> {
    pairs.map_values(|p: (Seq<char>, Seq<char>)| (p.0, path_push(dir, p.1)))
}

/// The module directory of a project in the Android tree for an SDK
/// extension version.
pub open spec fn project_dir(android_top: Seq<char>, project: Seq<char>, version: nat) -> Seq<char> {
    path_push(path_push(android_top, project), decimal(version))
}

/// The SDK extensions directory of the Android tree for a version.
pub open spec fn extensions_dir(android_top: Seq<char>, version: nat) -> Seq<char> {
    path_push(path_push(android_top, "prebuilts/sdk/extensions"@), decimal(version))
}

/// The project of the module whose SDK zip lies at `zip_path`: the module
/// named in the path, looked up in the module info; or the error of the
/// path or of the lookup.
pub open spec fn spec_zip_module_project(
    zip_path: Seq<char>,
    info: Seq<(Seq<char>, Seq<char>)>,
) -> Result<Seq<char>, Seq<char>> {
    if !regex_compiles(MODULE_SDK_ZIP_PATTERN@) {
        Err(pattern_error_msg())
    } else {
        match regex_captures(MODULE_SDK_ZIP_PATTERN@, zip_path) {
            None => Err(unmatched_zip_msg(zip_path)),
            Some(g) => if g.len() < 2 || g[1] is None {
                Err(missing_group_msg())
            } else {
                match module_project(info, g[1]->Some_0) {
                    None => Err(unlisted_module_msg(g[1]->Some_0)),
                    Some(project) => Ok(project),
                }
            },
        }
    }
}

/// What to unpack from a module SDK zip of `project`: the entries with
/// their destinations in the project's directory for the SDK extension
/// version, then the SDK library files with theirs in
/// prebuilts/sdk/extensions; or the first error of reading the archive.
pub open spec fn spec_module_unpack_ops(
    project: Seq<char>,
    android_top: Seq<char>,
    version: nat,
    archive: Seq<u8>,
) -> Result<Seq<(Seq<char>, Seq<char>)>, Seq<char>> {
    match spec_process_module_sdk(archive) {
        Err(e) => Err(e),
        Ok(m) => match spec_process_platform_sdk_extensions(archive) {
            Err(e) => Err(e),
            Ok(x) => Ok(
                distinct_pairs(
                    under_dir(m, project_dir(android_top, project, version)) + under_dir(
                        x,
                        extensions_dir(android_top, version),
                    ),
                ),
            ),
        },
    }
}

/// The project of a module in the module info.
fn find_project(info: &Vec<(String, String)>, name: &String) -> (res: Option<String>)
    ensures
        match (res, module_project(pairs_view(info@), name@)) {
            (Some(p), Some(q)) => p@ == q,
            (None, None) => true,
            _ => false,
        },
{
    let ghost v = pairs_view(info@);
    let mut i: usize = 0;
    assert(v.take(0) =~= Seq::<(Seq<char>, Seq<char>)>::empty());
    while i < info.len()
        invariant
            i <= info@.len(),
            v == pairs_view(info@),
            module_project(v.take(i as int), name@) is None,
        decreases info@.len() - i,
    {
        assert(v.take(i + 1).drop_last() =~= v.take(i as int));
        if info[i].0 == *name {
            proof {
                let k = (i + 1) as int;
                assert(module_project(v.take(k), name@) == Some(v[i as int].1));
                lemma_module_project_prefix(v, name@, k);
            }
            return Some(info[i].1.clone());
        }
        i = i + 1;
    }
    assert(v.take(v.len() as int) =~= v);
    None
}

/// A project found among the first entries is the project.
proof fn lemma_module_project_prefix(info: Seq<(Seq<char>, Seq<char>)>, name: Seq<char>, k: int)
    requires
        0 <= k <= info.len(),
        module_project(info.take(k), name) is Some,
    ensures
        module_project(info, name) == module_project(info.take(k), name),
    decreases info.len() - k,
{
    if k < info.len() {
        assert(info.take(k + 1).drop_last() =~= info.take(k));
        lemma_module_project_prefix(info, name, k + 1);
    } else {
        assert(info.take(k) =~= info);
    }
}

/// Appends each pair with its destination joined onto `dir`, unless an
/// equal pair is present: the pairs so far, `base`, kept once each, grow by
/// the new pairs, kept once each.
fn push_under_dir(
    out: &mut Vec<(String, String)>,
    Ghost(base): Ghost<Seq<(Seq<char>, Seq<char>)>>,
    pairs: &Vec<(String, String)>,
    dir: &str,
)
    requires
        pairs_view(old(out)@) == distinct_pairs(base),
    ensures
        pairs_view(final(out)@) == distinct_pairs(base + under_dir(pairs_view(pairs@), dir@)),
{
    let ghost pv = pairs_view(pairs@);
    let mut i: usize = 0;
    assert(base + under_dir(pv.take(0), dir@) =~= base);
    while i < pairs.len()
        invariant
            i <= pairs@.len(),
            pv == pairs_view(pairs@),
            pairs_view(out@) == distinct_pairs(base + under_dir(pv.take(i as int), dir@)),
        decreases pairs@.len() - i,
    {
        let dest = join_path(dir, pairs[i].1.as_str());
        let ghost item = (pv[i as int].0, path_push(dir@, pv[i as int].1));
        push_unique(out, (pairs[i].0.clone(), dest));
        let ghost prev = base + under_dir(pv.take(i as int), dir@);
        assert(base + under_dir(pv.take(i + 1), dir@) =~= prev.push(item));
        assert(prev.push(item).drop_last() =~= prev);
        assert(distinct_pairs(prev.push(item)) == insert_pair(distinct_pairs(prev), item));
        i = i + 1;
    }
    assert(pv.take(pv.len() as int) =~= pv);
}


/// The project of the module whose SDK zip lies at `zip_path`, per the
/// module info.
pub fn zip_module_project(zip_path: &str, module_info: &Vec<(String, String)>) -> (res: Result<
    String,
    String,
>)
    ensures
        match (res, spec_zip_module_project(zip_path@, pairs_view(module_info@))) {
            (Ok(p), Ok(q)) => p@ == q,
            (Err(e), Err(m)) => e@ == m,
            _ => false,
        },
{
    let caps = match captures(MODULE_SDK_ZIP_PATTERN, zip_path) {
        Ok(c) => c,
        Err(_) => {
            return Err(String::from_str("invalid regular expression"));
        },
    };
    let groups = match caps {
        Some(g) => g,
        None => {
            let mut msg = String::from_str("regex does not match string ");
            msg.append(debug_str(zip_path).as_str());
            return Err(msg);
        },
    };
    if groups.len() < 2 {
        return Err(String::from_str("capture group did not participate in the match"));
    }
    let name = match &groups[1] {
        Some(n) => n.clone(),
        None => {
            return Err(String::from_str("capture group did not participate in the match"));
        },
    };
    assert(groups_view(groups@)[1] == Some(name@));
    match find_project(module_info, &name) {
        Some(p) => Ok(p),
        None => {
            let mut msg = name.clone();
            msg.append(" found in module SDK dir but not listed in mainline-modules-info.json");
            Err(msg)
        },
    }
}

/// What to unpack from a module SDK zip of `project`, whose bytes are
/// `archive`: every entry with its destination in the project's directory
/// of the Android tree for the SDK extension version, followed by the SDK
/// library files with theirs in prebuilts/sdk/extensions.
pub fn module_unpack_ops(
    project: &str,
    android_top: &str,
    sdk_ext_version: usize,
    archive: &[u8],
) -> (res: Result<Vec<(String, String)>, String>)
    ensures
        pairs_result_view(res) == spec_module_unpack_ops(
            project@,
            android_top@,
            sdk_ext_version as nat,
            archive@,
        ),
{
    let module_entries = match process_module_sdk(archive) {
        Ok(m) => m,
        Err(e) => return Err(e),
    };
    let extension_entries = match process_platform_sdk_extensions(archive) {
        Ok(x) => x,
        Err(e) => return Err(e),
    };
    let version = decimal_string(sdk_ext_version as u64);
    let module_dir = join_path(join_path(android_top, project).as_str(), version.as_str());
    let ext_dir = join_path(
        join_path(android_top, "prebuilts/sdk/extensions").as_str(),
        version.as_str(),
    );
    let mut ops: Vec<(String, String)> = Vec::new();
    let ghost empty = Seq::<(Seq<char>, Seq<char>)>::empty();
    assert(pairs_view(ops@) =~= distinct_pairs(empty));
    push_under_dir(&mut ops, Ghost(empty), &module_entries, module_dir.as_str());
    let ghost first = empty + under_dir(pairs_view(module_entries@), module_dir@);
    assert(first =~= under_dir(pairs_view(module_entries@), module_dir@));
    push_under_dir(&mut ops, Ghost(first), &extension_entries, ext_dir.as_str());
    Ok(ops)
}

/// Every entry of a module SDK archive is listed once, in order, with where
/// it goes: an Android.bp file (named so at the top or in a directory) to
/// its path with `.auto` appended, every other entry to its own path.
pub proof fn lemma_module_destinations(archive: Seq<u8>)
    ensures
        zip_entry_names(archive) matches Some(names) ==> spec_process_module_sdk(archive) matches Ok(
            pairs,
        ) && pairs.len() == names.len() && forall|i: int|
            0 <= i < names.len() ==> {
                &&& (#[trigger] pairs[i]).0 == names[i]
                &&& (names[i] == "Android.bp"@ || ends_with(names[i], "/Android.bp"@)) ==> pairs[i].1
                    == names[i] + ".auto"@
                &&& !(names[i] == "Android.bp"@ || ends_with(names[i], "/Android.bp"@)) ==> pairs[i].1
                    == names[i]
            },
        zip_entry_names(archive) is None ==> spec_process_module_sdk(archive) == Err::<
            Seq<(Seq<char>, Seq<char>)>,
            Seq<char>,
        >("parse input as zip archive"@),
{
}

} // verus!
