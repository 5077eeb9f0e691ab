//! Decisions of the platform SDK unpacker: which files of an SDK build go
//! where in prebuilts/sdk, and how the prebuilts' Android.bp gains a new API
//! level.

use vstd::prelude::*;
use vstd::string::*;

use crate::module_sdk::{archive_error_msg, missing_group_msg, pattern_error_msg};
use crate::regex_match::{captures, groups_view, regex_captures, regex_compiles};
use crate::text::{
    chars_equal, chars_of, contains_chars, contains_seq, occurs_at, ends_with, ends_with_chars, push_chars,
    replace_all, replace_chars, starts_with, starts_with_chars, string_from_chars, strings_view,
};
use crate::zip_archive::{file_names, zip_entry_names};

verus! {

/// The entry that a new API level adds before `"current"` in Android.bp.
pub open spec fn api_level_entry(version: Seq<char>) -> Seq<char> {
    "\""@ + version + "\",\n        \"current\""@
}

/// Android.bp with the API level `version` listed before `"current"`, or
/// `None` where it is listed already.
pub open spec fn spec_update_android_bp(contents: Seq<char>, version: Seq<char>) -> Option<Seq<char>> {
    let replacement = api_level_entry(version);
    if contains_seq(contents, replacement) {
        None
    } else {
        Some(replace_all(contents, "\"current\""@, replacement))
    }
}

/// Adds the API level `version` before every `"current"` of Android.bp;
/// `None` where the level is listed already.
pub fn update_android_bp(contents: &str, version: &str) -> (res: Option<String>)
    ensures
        match spec_update_android_bp(contents@, version@) {
            Some(s) => res matches Some(r) && r@ == s,
            None => res is None,
        },
{
    let mut replacement = chars_of("\"");
    push_chars(&mut replacement, &chars_of(version));
    push_chars(&mut replacement, &chars_of("\",\n        \"current\""));
    let text = chars_of(contents);
    if contains_chars(&text, &replacement) {
        return None;
    }
    let current = chars_of("\"current\"");
    proof {
        reveal_strlit("\"current\"");
    }
    Some(string_from_chars(&replace_chars(&text, &current, &replacement)))
}

/// A step of unpacking an SDK build into prebuilts/sdk.
#[derive(Debug, PartialEq, Eq, PartialOrd, Ord)]
pub enum Operation {
    // src is relative to out/dist
    // dest is relative to prebuilts/sdk/$version
    Copy { src: String, dest: String },
    // src is the zip entry path inside the SDK zip
    // dest is relative prebuilts/sdk/$version
    Extract { src: String, dest: String },
    // link_target is relative prebuilts/sdk
    // link_file is relative prebuilts/sdk
    Symlink { link_target: String, link_file: String },
}

/// The mathematical value of an [`Operation`].
pub enum OperationView {
    Copy { src: Seq<char>, dest: Seq<char> },
    Extract { src: Seq<char>, dest: Seq<char> },
    Symlink { link_target: Seq<char>, link_file: Seq<char> },
}

impl View for Operation {
    type V = OperationView;

    open spec fn view(&self) -> OperationView {
        match self {
            Operation::Copy { src, dest } => OperationView::Copy { src: src@, dest: dest@ },
            Operation::Extract { src, dest } => OperationView::Extract { src: src@, dest: dest@ },
            Operation::Symlink { link_target, link_file } => OperationView::Symlink {
                link_target: link_target@,
                link_file: link_file@,
            },
        }
    }
}

/// A copy of `src` in the SDK build to `dest` in prebuilts/sdk/<version>.
pub fn copy(src: &str, dest: &str) -> (op: Operation)
    ensures
        op@ == (OperationView::Copy { src: src@, dest: dest@ }),
{
    Operation::Copy { src: String::from_str(src), dest: String::from_str(dest) }
}

/// An extraction of the SDK zip entry `src` to `dest` in
/// prebuilts/sdk/<version>.
pub fn extract(src: &str, dest: &str) -> (op: Operation)
    ensures
        op@ == (OperationView::Extract { src: src@, dest: dest@ }),
{
    Operation::Extract { src: String::from_str(src), dest: String::from_str(dest) }
}

/// A symbolic link `link_file` to `link_target`, both relative to
/// prebuilts/sdk.
pub fn symlink(link_target: &str, link_file: &str) -> (op: Operation)
    ensures
        op@ == (OperationView::Symlink { link_target: link_target@, link_file: link_file@ }),
{
    Operation::Symlink {
        link_target: String::from_str(link_target),
        link_file: String::from_str(link_file),
    }
}

/// API text files of a scope: `apistubs/android/<scope>/api/<file>.txt`.
pub const API_TXT_PATTERN: &'static str =
    "^apistubs/android/(public|system|test|module-lib|system-server)/api/(.*\\.txt)$";

/// Stub jars of a scope: `apistubs/android/<scope>/<file>.jar`.
pub const JAR_PATTERN: &'static str =
    "^apistubs/android/(public|system|test|module-lib|system-server)/(.*\\.jar)$";

/// The core-for-system-modules jar of a scope.
pub const CORE_FOR_SYSTEM_MODULES_PATTERN: &'static str =
    "^system-modules/(public|module-lib)/core-for-system-modules\\.jar$";

/// API data of a scope: `[<scope>-]data/{api-versions.xml,annotations.zip}`.
pub const DATA_PATTERN: &'static str =
    "^(|system|module-lib|system-server)-?data/(api-versions\\.xml|annotations\\.zip)$";

/// Files of the SDK zip that go to the public scope.
pub const SDK_ZIP_PATTERN: &'static str =
    "^android-.*/(android\\.jar|framework\\.aidl|uiautomator\\.jar)$";

/// The texts of the first `count` capture groups, all present.
pub open spec fn group_texts(g: Seq<Option<Seq<char>>>, count: nat) -> Seq<Seq<char>> {
    Seq::new(count, |i: int| g[i]->Some_0)
}

/// The texts of capture groups 0 to `n` of the pattern's match in the text:
/// an error where the pattern does not compile or one of these groups did
/// not participate; `None` where there is no match.
pub open spec fn match_groups(pattern: Seq<char>, text: Seq<char>, n: nat) -> Result<
    Option<Seq<Seq<char>>>,
    Seq<char>,
> {
    if !regex_compiles(pattern) {
        Err(pattern_error_msg())
    } else {
        match regex_captures(pattern, text) {
            None => Ok(None),
            Some(g) => if g.len() <= n || exists|i: int| 0 <= i <= n && #[trigger] g[i] is None {
                Err(missing_group_msg())
            } else {
                Ok(Some(group_texts(g, n + 1)))
            },
        }
    }
}

/// The texts of capture groups 0 to `n` of the pattern's match in the text
/// (see [`match_groups`]).
fn groups_of(pattern: &str, text: &str, n: usize) -> (res: Result<Option<Vec<String>>, String>)
    ensures
        match (res, match_groups(pattern@, text@, n as nat)) {
            (Ok(None), Ok(None)) => true,
            (Ok(Some(v)), Ok(Some(s))) => strings_view(v@) == s,
            (Err(e), Err(m)) => e@ == m,
            _ => false,
        },
        res matches Ok(Some(v)) ==> v@.len() == n + 1,
{
    let caps = match captures(pattern, text) {
        Ok(c) => c,
        Err(_) => {
            return Err(String::from_str("invalid regular expression"));
        },
    };
    let groups = match caps {
        None => {
            return Ok(None);
        },
        Some(g) => g,
    };
    let ghost gv = regex_captures(pattern@, text@)->Some_0;
    assert(groups_view(groups@) == gv);
    if groups.len() <= n {
        return Err(String::from_str("capture group did not participate in the match"));
    }
    let mut out: Vec<String> = Vec::new();
    let mut i: usize = 0;
    let glen = groups.len();
    while i <= n
        invariant
            n < groups@.len(),
            glen == groups@.len(),
            groups_view(groups@) == gv,
            i <= n + 1,
            forall|k: int| 0 <= k < i ==> #[trigger] gv[k] is Some,
            strings_view(out@) == group_texts(gv, i as nat),
            regex_compiles(pattern@),
            regex_captures(pattern@, text@) == Some(gv),
        decreases n + 1 - i,
    {
        assert(gv[i as int] == match groups@[i as int] {
            Some(s) => Some(s@),
            None => None::<Seq<char>>,
        });
        match &groups[i] {
            Some(s) => {
                let ghost before = strings_view(out@);
                let t = s.clone();
                assert(gv[i as int] == Some(t@));
                out.push(t);
                assert(strings_view(out@) =~= before.push(t@));
            },
            None => {
                assert(gv[i as int] is None);
                assert(exists|k: int| 0 <= k <= n && #[trigger] gv[k] is None);
                return Err(String::from_str("capture group did not participate in the match"));
            },
        }
        i = i + 1;
        assert(strings_view(out@) =~= group_texts(gv, i as nat));
    }
    assert(!exists|k: int| 0 <= k <= n && #[trigger] gv[k] is None);
    Ok(Some(out))
}

/// The copy of an API text file: `apistubs/android/<scope>/api/<file>.txt`
/// goes to `<scope>/api/<file>.txt`.
pub open spec fn api_txt_copy_view(whole: Seq<char>, scope: Seq<char>, file: Seq<char>) -> OperationView {
    OperationView::Copy { src: whole, dest: scope + "/api/"@ + file }
}

/// The copy of a stub jar: `apistubs/android/<scope>/<file>.jar` goes to
/// `<scope>/<file>.jar`.
pub open spec fn jar_copy_view(whole: Seq<char>, scope: Seq<char>, file: Seq<char>) -> OperationView {
    OperationView::Copy { src: whole, dest: scope + "/"@ + file }
}

/// The copy of a core-for-system-modules jar to its scope.
pub open spec fn core_for_system_modules_copy_view(whole: Seq<char>, scope: Seq<char>) -> OperationView {
    OperationView::Copy { src: whole, dest: scope + "/core-for-system-modules.jar"@ }
}

/// The copy of an API data file to `<scope>/data/`, where the scope of
/// unprefixed data is the public one.
pub open spec fn data_copy_view(whole: Seq<char>, scope: Seq<char>, file: Seq<char>) -> OperationView {
    OperationView::Copy {
        src: whole,
        dest: if scope.len() == 0 {
            "public/data/"@ + file
        } else {
            scope + "/data/"@ + file
        },
    }
}

/// The extraction of a file of the SDK zip to the public scope.
pub open spec fn zip_extract_view(whole: Seq<char>, file: Seq<char>) -> OperationView {
    OperationView::Extract { src: whole, dest: "public/"@ + file }
}

/// What a file of the SDK build contributes: a copy to its place in
/// prebuilts/sdk/<version>, or nothing.
pub open spec fn path_copy(path: Seq<char>) -> Result<Option<OperationView>, Seq<char>> {
    match match_groups(API_TXT_PATTERN@, path, 2) {
        Err(e) => Err(e),
        Ok(Some(g)) => Ok(Some(api_txt_copy_view(g[0], g[1], g[2]))),
        Ok(None) => match match_groups(JAR_PATTERN@, path, 2) {
            Err(e) => Err(e),
            Ok(Some(g)) => Ok(Some(jar_copy_view(g[0], g[1], g[2]))),
            Ok(None) => match match_groups(CORE_FOR_SYSTEM_MODULES_PATTERN@, path, 1) {
                Err(e) => Err(e),
                Ok(Some(g)) => Ok(Some(core_for_system_modules_copy_view(g[0], g[1]))),
                Ok(None) => match match_groups(DATA_PATTERN@, path, 2) {
                    Err(e) => Err(e),
                    Ok(Some(g)) => Ok(Some(data_copy_view(g[0], g[1], g[2]))),
                    Ok(None) => if path == "finalized-flags.txt"@ {
                        Ok(Some(OperationView::Copy { src: path, dest: path }))
                    } else {
                        Ok(None)
                    },
                },
            },
        },
    }
}

/// What an entry of the SDK zip contributes: an extraction to the public
/// scope, or nothing.
pub open spec fn entry_extract(name: Seq<char>) -> Result<Option<OperationView>, Seq<char>> {
    match match_groups(SDK_ZIP_PATTERN@, name, 1) {
        Err(e) => Err(e),
        Ok(Some(g)) => Ok(Some(zip_extract_view(g[0], g[1]))),
        Ok(None) => Ok(None),
    }
}

/// The operations that a sequence of items contributes, in order, where
/// `copies` says whether the items are build files (else zip entries).
pub open spec fn collect_ops(items: Seq<Seq<char>>, copies: bool) -> Result<Seq<OperationView>, Seq<char>>
    decreases items.len(),
{
    if items.len() == 0 {
        Ok(Seq::empty())
    } else {
        match collect_ops(items.drop_last(), copies) {
            Err(e) => Err(e),
            Ok(acc) => match if copies {
                path_copy(items.last())
            } else {
                entry_extract(items.last())
            } {
                Err(e) => Err(e),
                Ok(None) => Ok(acc),
                Ok(Some(op)) => Ok(acc.push(op)),
            },
        }
    }
}

/// An error that the items up to `k` produce is the error of all of them.
pub proof fn lemma_collect_error_propagates(items: Seq<Seq<char>>, copies: bool, k: int)
    requires
        0 <= k <= items.len(),
        collect_ops(items.take(k), copies) is Err,
    ensures
        collect_ops(items, copies) == collect_ops(items.take(k), copies),
    decreases items.len() - k,
{
    if k < items.len() {
        assert(items.take(k + 1).drop_last() == items.take(k));
        lemma_collect_error_propagates(items, copies, k + 1);
    } else {
        assert(items.take(k) == items);
    }
}

/// The operations that unpack an SDK build: copies of the build's files
/// first, then extractions from the SDK zip (which may overwrite copies).
pub open spec fn spec_decide_what_to_do(sdk_files: Seq<Seq<char>>, sdk_zip: Seq<u8>) -> Result<
    Seq<OperationView>,
    Seq<char>,
> {
    match collect_ops(sdk_files, true) {
        Err(e) => Err(e),
        Ok(copies) => match zip_entry_names(sdk_zip) {
            None => Err(archive_error_msg()),
            Some(names) => match collect_ops(names, false) {
                Err(e) => Err(e),
                Ok(extracts) => Ok(copies + extracts),
            },
        },
    }
}

/// Concatenation of two strings.
fn concat2(a: &str, b: &str) -> (res: String)
    ensures
        res@ == a@ + b@,
{
    let mut s = String::from_str(a);
    s.append(b);
    s
}

/// The copy of an API text file, given the match (`whole`), its scope and
/// its file name.
pub fn api_txt_copy(whole: &str, scope: &str, file: &str) -> (op: Operation)
    ensures
        op@ == api_txt_copy_view(whole@, scope@, file@),
{
    let dest = concat2(concat2(scope, "/api/").as_str(), file);
    copy(whole, dest.as_str())
}

/// The copy of a stub jar, given the match, its scope and its file name.
pub fn jar_copy(whole: &str, scope: &str, file: &str) -> (op: Operation)
    ensures
        op@ == jar_copy_view(whole@, scope@, file@),
{
    let dest = concat2(concat2(scope, "/").as_str(), file);
    copy(whole, dest.as_str())
}

/// The copy of a core-for-system-modules jar, given the match and its
/// scope.
pub fn core_for_system_modules_copy(whole: &str, scope: &str) -> (op: Operation)
    ensures
        op@ == core_for_system_modules_copy_view(whole@, scope@),
{
    let dest = concat2(scope, "/core-for-system-modules.jar");
    copy(whole, dest.as_str())
}

/// The copy of an API data file, given the match, its scope (empty for the
/// public one) and its file name.
pub fn data_copy(whole: &str, scope: &str, file: &str) -> (op: Operation)
    ensures
        op@ == data_copy_view(whole@, scope@, file@),
{
    let dest = if scope.is_empty() {
        concat2("public/data/", file)
    } else {
        concat2(concat2(scope, "/data/").as_str(), file)
    };
    copy(whole, dest.as_str())
}

/// The extraction of a file of the SDK zip, given the match and the file
/// name.
pub fn zip_extract(whole: &str, file: &str) -> (op: Operation)
    ensures
        op@ == zip_extract_view(whole@, file@),
{
    let dest = concat2("public/", file);
    extract(whole, dest.as_str())
}

/// The copy that a file of the SDK build contributes, if any.
fn copy_for_path(path: &str) -> (res: Result<Option<Operation>, String>)
    ensures
        match (res, path_copy(path@)) {
            (Ok(None), Ok(None)) => true,
            (Ok(Some(op)), Ok(Some(v))) => op@ == v,
            (Err(e), Err(m)) => e@ == m,
            _ => false,
        },
{
    // for scope in 'public', 'system', 'test', 'module-lib', 'system-server':
    //     apistubs/android/${scope}/api/*.txt -> ${scope}/api/*.txt
    if let Some(g) = groups_of(API_TXT_PATTERN, path, 2)? {
        assert(g@[0]@ == strings_view(g@)[0]);
        assert(g@[1]@ == strings_view(g@)[1]);
        assert(g@[2]@ == strings_view(g@)[2]);
        return Ok(Some(api_txt_copy(g[0].as_str(), g[1].as_str(), g[2].as_str())));
    }
    // for scope in 'public', 'system', 'test', 'module-lib', 'system-server':
    //     apistubs/android/${scope}/api/*.jar -> ${scope}/*.jar
    if let Some(g) = groups_of(JAR_PATTERN, path, 2)? {
        assert(g@[0]@ == strings_view(g@)[0]);
        assert(g@[1]@ == strings_view(g@)[1]);
        assert(g@[2]@ == strings_view(g@)[2]);
        return Ok(Some(jar_copy(g[0].as_str(), g[1].as_str(), g[2].as_str())));
    }
    // special case for system-modules/{public,module-lib}/core-for-system-modules.jar
    if let Some(g) = groups_of(CORE_FOR_SYSTEM_MODULES_PATTERN, path, 1)? {
        assert(g@[0]@ == strings_view(g@)[0]);
        assert(g@[1]@ == strings_view(g@)[1]);
        return Ok(Some(core_for_system_modules_copy(g[0].as_str(), g[1].as_str())));
    }
    // for scope in 'public', 'system', 'module-lib', 'system-server':
    //     {data,system-data,module-lib-data,system-server-data}/{api-versions.xml,annotations.zip} ->
    //     ${scope}/data/{api-versions.xml,annotations.zip}
    if let Some(g) = groups_of(DATA_PATTERN, path, 2)? {
        assert(g@[0]@ == strings_view(g@)[0]);
        assert(g@[1]@ == strings_view(g@)[1]);
        assert(g@[2]@ == strings_view(g@)[2]);
        return Ok(Some(data_copy(g[0].as_str(), g[1].as_str(), g[2].as_str())));
    }
    if chars_equal(&chars_of(path), &chars_of("finalized-flags.txt")) {
        return Ok(Some(copy(path, path)));
    }
    Ok(None)
}

/// The extraction that an entry of the SDK zip contributes, if any.
fn extract_for_entry(name: &str) -> (res: Result<Option<Operation>, String>)
    ensures
        match (res, entry_extract(name@)) {
            (Ok(None), Ok(None)) => true,
            (Ok(Some(op)), Ok(Some(v))) => op@ == v,
            (Err(e), Err(m)) => e@ == m,
            _ => false,
        },
{
    // extract "android-.*/{android.jar,framework.aidl,uiautomator.jar}" -> public/*
    if let Some(g) = groups_of(SDK_ZIP_PATTERN, name, 1)? {
        assert(g@[0]@ == strings_view(g@)[0]);
        assert(g@[1]@ == strings_view(g@)[1]);
        return Ok(Some(zip_extract(g[0].as_str(), g[1].as_str())));
    }
    Ok(None)
}

/// The views of operations.
pub open spec fn ops_view(ops: Seq<Operation>) -> Seq<OperationView> {
    ops.map_values(|op: Operation| op@)
}

/// Appends the operations that the items contribute.
fn push_ops(ops: &mut Vec<Operation>, items: &Vec<String>, copies: bool) -> (res: Result<(), String>)
    ensures
        match (res, collect_ops(strings_view(items@), copies)) {
            (Ok(()), Ok(s)) => ops_view(final(ops)@) == ops_view(old(ops)@) + s,
            (Err(e), Err(m)) => e@ == m,
            _ => false,
        },
{
    let ghost names = strings_view(items@);
    let ghost start = ops_view(ops@);
    let mut i: usize = 0;
    assert(names.take(0) == Seq::<Seq<char>>::empty());
    assert(start + Seq::<OperationView>::empty() == start);
    while i < items.len()
        invariant
            i <= items@.len(),
            names == strings_view(items@),
            collect_ops(names.take(i as int), copies) matches Ok(s) && ops_view(ops@) == start + s,
        decreases items@.len() - i,
    {
        assert(names.take(i + 1).drop_last() == names.take(i as int));
        assert(names.take(i + 1).last() == items@[i as int]@);
        let r = if copies {
            copy_for_path(items[i].as_str())
        } else {
            extract_for_entry(items[i].as_str())
        };
        match r {
            Err(e) => {
                proof {
                    lemma_collect_error_propagates(names, copies, i + 1);
                }
                return Err(e);
            },
            Ok(None) => {},
            Ok(Some(op)) => {
                let ghost before = ops_view(ops@);
                ops.push(op);
                assert(ops_view(ops@) =~= before.push(op@));
            },
        }
        i = i + 1;
    }
    assert(names.take(items@.len() as int) == names);
    Ok(())
}

/// The operations that unpack an SDK build (see [`spec_decide_what_to_do`]):
/// `sdk_files` lists the build's files, `sdk_zip` holds the SDK zip.
pub fn decide_what_to_do(sdk_files: &Vec<String>, sdk_zip: &[u8]) -> (res: Result<Vec<Operation>, String>)
    ensures
        match (res, spec_decide_what_to_do(strings_view(sdk_files@), sdk_zip@)) {
            (Ok(ops), Ok(s)) => ops_view(ops@) == s,
            (Err(e), Err(m)) => e@ == m,
            _ => false,
        },
{
    let mut ops: Vec<Operation> = Vec::new();
    assert(ops_view(ops@) == Seq::<OperationView>::empty());
    push_ops(&mut ops, sdk_files, true)?;
    // note: this will potentially overwrite some copied sdk_files so must be done after all
    // Operation::Copy
    let names = match file_names(sdk_zip) {
        Ok(names) => names,
        Err(_) => {
            return Err(String::from_str("parse input as zip archive"));
        },
    };
    push_ops(&mut ops, &names, false)?;
    Ok(ops)
}

/// The SDK zip of a dist dir: a file named `sdk-repo-linux-platforms-*.zip`.
pub open spec fn is_sdk_zip_name(name: Seq<char>) -> bool {
    starts_with(name, "sdk-repo-linux-platforms-"@) && ends_with(name, ".zip"@)
}

/// The first SDK zip among the files of a dist dir, if any.
pub fn find_sdk_zip(files: &Vec<String>) -> (res: Option<String>)
    ensures
        match res {
            Some(f) => exists|i: int|
                0 <= i < files@.len() && #[trigger] files@[i]@ == f@ && is_sdk_zip_name(f@)
                    && forall|j: int| 0 <= j < i ==> !is_sdk_zip_name(#[trigger] files@[j]@),
            None => forall|i: int| 0 <= i < files@.len() ==> !is_sdk_zip_name(#[trigger] files@[i]@),
        },
{
    let prefix = chars_of("sdk-repo-linux-platforms-");
    let suffix = chars_of(".zip");
    let mut i: usize = 0;
    while i < files.len()
        invariant
            i <= files@.len(),
            prefix@ == "sdk-repo-linux-platforms-"@,
            suffix@ == ".zip"@,
            forall|j: int| 0 <= j < i ==> !is_sdk_zip_name(#[trigger] files@[j]@),
        decreases files@.len() - i,
    {
        let name = chars_of(files[i].as_str());
        if starts_with_chars(&name, &prefix) && ends_with_chars(&name, &suffix) {
            let f = files[i].clone();
            assert(files@[i as int]@ == f@);
            return Some(f);
        }
        i = i + 1;
    }
    None
}

/// Every operation that build files contribute is a copy, and every one
/// that zip entries contribute is an extraction.
proof fn lemma_collect_kinds(items: Seq<Seq<char>>, copies: bool)
    ensures
        collect_ops(items, copies) matches Ok(ops) ==> forall|k: int|
            0 <= k < ops.len() ==> if copies {
                #[trigger] ops[k] is Copy
            } else {
                ops[k] is Extract
            },
    decreases items.len(),
{
    if items.len() > 0 {
        lemma_collect_kinds(items.drop_last(), copies);
    }
}

/// Unpacking copies the build's files before it extracts from the SDK zip,
/// so that an extraction overwrites a copy to the same place and never the
/// other way round.
pub proof fn lemma_copies_before_extractions(sdk_files: Seq<Seq<char>>, sdk_zip: Seq<u8>)
    ensures
        spec_decide_what_to_do(sdk_files, sdk_zip) matches Ok(ops) ==> forall|i: int, j: int|
            0 <= i < j < ops.len() ==> !(#[trigger] ops[i] is Extract && #[trigger] ops[j] is Copy),
{
    lemma_collect_kinds(sdk_files, true);
    if let Some(names) = zip_entry_names(sdk_zip) {
        lemma_collect_kinds(names, false);
    }
}

/// An occurrence of `pat` in `s` is an occurrence in `s` without its first
/// character, unless it is at the start.
proof fn lemma_occurs_in_rest(s: Seq<char>, pat: Seq<char>, i: int)
    requires
        occurs_at(s, pat, i),
        i > 0,
    ensures
        occurs_at(s.skip(1), pat, i - 1),
{
    assert(s.skip(1).subrange(i - 1, i - 1 + pat.len()) =~= s.subrange(i, i + pat.len()));
}

/// Where `pat` occurs in `s`, `rep` occurs where every `pat` is replaced.
pub proof fn lemma_replace_all_inserts(s: Seq<char>, pat: Seq<char>, rep: Seq<char>)
    requires
        pat.len() > 0,
        contains_seq(s, pat),
    ensures
        contains_seq(replace_all(s, pat, rep), rep),
    decreases s.len(),
{
    let i = choose|i: int| occurs_at(s, pat, i);
    let r = replace_all(s, pat, rep);
    if s.take(pat.len() as int) == pat {
        assert(r.subrange(0, rep.len() as int) =~= rep);
        assert(occurs_at(r, rep, 0));
    } else {
        if i == 0 {
            assert(s.subrange(0, pat.len() as int) =~= s.take(pat.len() as int));
        }
        lemma_occurs_in_rest(s, pat, i);
        lemma_replace_all_inserts(s.skip(1), pat, rep);
        let rest = replace_all(s.skip(1), pat, rep);
        let k = choose|k: int| occurs_at(rest, rep, k);
        assert(r == seq![s[0]] + rest);
        assert(r.subrange(k + 1, k + 1 + rep.len()) =~= rest.subrange(k, k + rep.len()));
        assert(occurs_at(r, rep, k + 1));
    }
}

/// Adding an API level to Android.bp that lists `"current"` is done once:
/// updating the result for the same level changes nothing more.
pub proof fn lemma_update_android_bp_once(contents: Seq<char>, version: Seq<char>)
    requires
        contains_seq(contents, "\"current\""@),
    ensures
        spec_update_android_bp(contents, version) matches Some(updated) ==> spec_update_android_bp(
            updated,
            version,
        ) is None,
{
    reveal_strlit("\"current\"");
    if !contains_seq(contents, api_level_entry(version)) {
        lemma_replace_all_inserts(contents, "\"current\""@, api_level_entry(version));
    }
}

} // verus!
