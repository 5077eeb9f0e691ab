//! Consistency checks of the API database (api-versions.xml) of an SDK: no
//! API is deprecated in the version that introduces it (unless allowed), no
//! version lies beyond the latest known one, and no API belongs to the
//! AdServices extension together with other extensions.

use vstd::prelude::*;
use vstd::string::*;

use crate::text::{
    chars_equal, chars_of, decimal, push_char, push_decimal, split_chars, split_on, strings_view,
};

verus! {

/// An SDK version of the API database.
#[derive(Clone, Copy, Debug, PartialEq, Eq, Structural)]
pub struct MajorMinorVersion {
    pub major: u32,
    pub minor: u32,
}

impl MajorMinorVersion {
    /// Later in the order by major, then minor version.
    pub open spec fn spec_gt(self, other: Self) -> bool {
        self.major > other.major || (self.major == other.major && self.minor > other.minor)
    }

    /// The text of the version: `major.minor`.
    pub open spec fn text(self) -> Seq<char> {
        decimal(self.major as nat) + seq!['.'] + decimal(self.minor as nat)
    }

    /// Whether the version is later than `other`.
    pub fn is_greater_than(&self, other: &Self) -> (res: bool)
        ensures
            res == self.spec_gt(*other),
    {
        self.major > other.major || (self.major == other.major && self.minor > other.minor)
    }

    /// The text of the version: `major.minor`.
    pub fn to_string(&self) -> (res: String)
        ensures
            res@ == self.text(),
    {
        let mut s = String::new();
        push_decimal(&mut s, self.major as u64);
        push_char(&mut s, '.');
        push_decimal(&mut s, self.minor as u64);
        s
    }
}

/// A field or method of a class in the API database.
pub struct ApiMember {
    pub name: String,
    pub since: Option<MajorMinorVersion>,
    pub deprecated: Option<MajorMinorVersion>,
    pub sdks: Option<String>,
}

/// A class in the API database.
pub struct ApiClass {
    pub name: String,
    pub since: MajorMinorVersion,
    pub deprecated: Option<MajorMinorVersion>,
    pub sdks: Option<String>,
    pub fields: Vec<ApiMember>,
    pub methods: Vec<ApiMember>,
}

/// The API database: its classes.
pub struct Api {
    pub classes: Vec<ApiClass>,
}

/// The list holds the text.
pub open spec fn listed(list: Seq<String>, key: Seq<char>) -> bool {
    exists|i: int| 0 <= i < list.len() && #[trigger] list[i]@ == key
}

/// Whether the list holds the text.
fn is_listed(list: &Vec<String>, key: &String) -> (res: bool)
    ensures
        res == listed(list@, key@),
{
    let mut i: usize = 0;
    while i < list.len()
        invariant
            i <= list@.len(),
            forall|k: int| 0 <= k < i ==> list@[k]@ != key@,
        decreases list@.len() - i,
    {
        if list[i] == *key {
            return true;
        }
        i = i + 1;
    }
    false
}

/// Appends strings.
fn append_strings(out: &mut Vec<String>, more: Vec<String>)
    ensures
        strings_view(final(out)@) == strings_view(old(out)@) + strings_view(more@),
{
    let mut more = more;
    out.append(&mut more);
}

/// A single text, or none.
pub open spec fn opt_seq(o: Option<Seq<char>>) -> Seq<Seq<char>> {
    match o {
        Some(x) => seq![x],
        None => Seq::empty(),
    }
}

/// Pushes the text, if any.
fn push_opt(out: &mut Vec<String>, o: Option<String>)
    ensures
        strings_view(final(out)@) == strings_view(old(out)@) + opt_seq(
            match o {
                Some(s) => Some(s@),
                None => None,
            },
        ),
{
    let ghost before = strings_view(out@);
    match o {
        Some(s) => {
            out.push(s);
            assert(strings_view(out@) =~= before + seq![s@]);
        },
        None => {
            assert(before + Seq::<Seq<char>>::empty() =~= before);
        },
    }
}

// ---------------------------------------------------------------------------
// Deprecated at birth
/// The problem of a class deprecated in the version that introduced it,
/// unless the allowlist holds it.
pub open spec fn class_birth_problem(c: ApiClass, allowlist: Seq<String>) -> Seq<Seq<char>> {
    match c.deprecated {
        Some(d) => {
            let key = c.name@ + " "@ + d.text();
            if d == c.since && !listed(allowlist, key) {
                seq![key]
            } else {
                Seq::empty()
            }
        },
        None => Seq::empty(),
    }
}

/// The problem of a member deprecated in the version that introduced it
/// (its own, or else its class's), unless the allowlist holds it.
pub open spec fn member_birth_problem(c: ApiClass, m: ApiMember, allowlist: Seq<String>) -> Seq<
    Seq<char>,
> {
    match m.deprecated {
        Some(d) => {
            let since = match m.since {
                Some(s) => s,
                None => c.since,
            };
            let key = c.name@ + "#"@ + m.name@ + " "@ + d.text();
            if d == since && !listed(allowlist, key) {
                seq![key]
            } else {
                Seq::empty()
            }
        },
        None => Seq::empty(),
    }
}

/// The problems of members deprecated at birth, in order.
pub open spec fn members_birth_problems(c: ApiClass, ms: Seq<ApiMember>, allowlist: Seq<String>) -> Seq<
    Seq<char>,
>
    decreases ms.len(),
{
    if ms.len() == 0 {
        Seq::empty()
    } else {
        members_birth_problems(c, ms.drop_last(), allowlist) + member_birth_problem(
            c,
            ms.last(),
            allowlist,
        )
    }
}

/// The problems of a class: the class itself, its fields, its methods.
pub open spec fn class_birth_problems(c: ApiClass, allowlist: Seq<String>) -> Seq<Seq<char>> {
    class_birth_problem(c, allowlist) + members_birth_problems(c, c.fields@, allowlist)
        + members_birth_problems(c, c.methods@, allowlist)
}

/// The problems of the classes, in order.
pub open spec fn birth_problems(classes: Seq<ApiClass>, allowlist: Seq<String>) -> Seq<Seq<char>>
    decreases classes.len(),
{
    if classes.len() == 0 {
        Seq::empty()
    } else {
        birth_problems(classes.drop_last(), allowlist) + class_birth_problems(
            classes.last(),
            allowlist,
        )
    }
}

fn member_birth(c: &ApiClass, m: &ApiMember, allowlist: &Vec<String>) -> (res: Option<String>)
    ensures
        opt_seq(
            match res {
                Some(s) => Some(s@),
                None => None,
            },
        ) == member_birth_problem(*c, *m, allowlist@),
{
    if let Some(deprecated) = &m.deprecated {
        let since = match &m.since {
            Some(s) => *s,
            None => c.since,
        };
        if *deprecated == since {
            let mut key = String::from_str(c.name.as_str());
            key.append("#");
            key.append(m.name.as_str());
            key.append(" ");
            key.append(deprecated.to_string().as_str());
            if !is_listed(allowlist, &key) {
                return Some(key);
            }
        }
    }
    None
}

fn members_birth(c: &ApiClass, ms: &Vec<ApiMember>, allowlist: &Vec<String>) -> (res: Vec<String>)
    ensures
        strings_view(res@) == members_birth_problems(*c, ms@, allowlist@),
{
    let mut out: Vec<String> = Vec::new();
    let mut i: usize = 0;
    assert(strings_view(out@) =~= members_birth_problems(*c, ms@.take(0), allowlist@));
    while i < ms.len()
        invariant
            i <= ms@.len(),
            strings_view(out@) == members_birth_problems(*c, ms@.take(i as int), allowlist@),
        decreases ms@.len() - i,
    {
        assert(ms@.take(i + 1).drop_last() == ms@.take(i as int));
        push_opt(&mut out, member_birth(c, &ms[i], allowlist));
        i = i + 1;
    }
    assert(ms@.take(ms@.len() as int) == ms@);
    out
}

/// The problems of APIs deprecated in the version that introduced them,
/// except those the allowlist holds: `<class> <version>` for a class,
/// `<class>#<member> <version>` for a field or method.
pub fn no_deprecated_at_birth(api: &Api, allowlist: &Vec<String>) -> (res: Vec<String>)
    ensures
        strings_view(res@) == birth_problems(api.classes@, allowlist@),
{
    let mut problems: Vec<String> = Vec::new();
    let mut i: usize = 0;
    assert(strings_view(problems@) =~= birth_problems(api.classes@.take(0), allowlist@));
    while i < api.classes.len()
        invariant
            i <= api.classes@.len(),
            strings_view(problems@) == birth_problems(api.classes@.take(i as int), allowlist@),
        decreases api.classes@.len() - i,
    {
        let class = &api.classes[i];
        assert(api.classes@.take(i + 1).drop_last() == api.classes@.take(i as int));
        if let Some(deprecated) = &class.deprecated {
            if *deprecated == class.since {
                let mut key = String::from_str(class.name.as_str());
                key.append(" ");
                key.append(deprecated.to_string().as_str());
                if !is_listed(allowlist, &key) {
                    problems.push(key);
                }
            }
        }
        append_strings(&mut problems, members_birth(class, &class.fields, allowlist));
        append_strings(&mut problems, members_birth(class, &class.methods, allowlist));
        i = i + 1;
    }
    assert(api.classes@.take(api.classes@.len() as int) == api.classes@);
    problems
}

// ---------------------------------------------------------------------------
// Versions after the last known one
/// The problem of a version later than the maximum allowed one.
pub open spec fn version_problem(
    version: Option<MajorMinorVersion>,
    max_sdk_version: MajorMinorVersion,
    context: Seq<char>,
) -> Option<Seq<char>> {
    match version {
        Some(v) => if v.spec_gt(max_sdk_version) {
            Some(
                context + ": SDK version \""@ + v.text() + "\" is greater than the maximum allowed \""@
                    + max_sdk_version.text() + "\""@,
            )
        } else {
            None
        },
        None => None,
    }
}

/// Checks if the provided optional version exceeds the maximum allowed SDK
/// version. Returns a message if the version is present and greater than
/// `max_sdk_version`, else `None`.
pub fn check_version_msg(
    version_opt: Option<MajorMinorVersion>,
    max_sdk_version: MajorMinorVersion,
    context: String,
) -> (res: Option<String>)
    ensures
        match (res, version_problem(version_opt, max_sdk_version, context@)) {
            (Some(s), Some(m)) => s@ == m,
            (None, None) => true,
            _ => false,
        },
{
    if let Some(version) = version_opt {
        if version.is_greater_than(&max_sdk_version) {
            let mut msg = context;
            msg.append(": SDK version \"");
            msg.append(version.to_string().as_str());
            msg.append("\" is greater than the maximum allowed \"");
            msg.append(max_sdk_version.to_string().as_str());
            msg.append("\"");
            return Some(msg);
        }
    }
    None
}

/// The view of an optional string.
pub open spec fn opt_view(o: Option<String>) -> Option<Seq<char>> {
    match o {
        Some(s) => Some(s@),
        None => None,
    }
}

/// The name of a member in messages: `Class '<class>', <kind> '<member>'`.
pub open spec fn member_id(c: ApiClass, kind: Seq<char>, m: ApiMember) -> Seq<char> {
    "Class '"@ + c.name@ + "', "@ + kind + " '"@ + m.name@ + "'"@
}

/// The problems of a member's versions: `since`, then `deprecated`.
pub open spec fn member_version_problems(
    c: ApiClass,
    kind: Seq<char>,
    m: ApiMember,
    max: MajorMinorVersion,
) -> Seq<Seq<char>> {
    opt_seq(version_problem(m.since, max, member_id(c, kind, m) + ", attribute 'since'"@)) + opt_seq(
        version_problem(m.deprecated, max, member_id(c, kind, m) + ", attribute 'deprecated'"@),
    )
}

/// The problems of the members' versions, in order.
pub open spec fn members_version_problems(
    c: ApiClass,
    kind: Seq<char>,
    ms: Seq<ApiMember>,
    max: MajorMinorVersion,
) -> Seq<Seq<char>>
    decreases ms.len(),
{
    if ms.len() == 0 {
        Seq::empty()
    } else {
        members_version_problems(c, kind, ms.drop_last(), max) + member_version_problems(
            c,
            kind,
            ms.last(),
            max,
        )
    }
}

/// The problems of a class's versions: its own, then its fields', then its
/// methods'.
pub open spec fn class_version_problems(c: ApiClass, max: MajorMinorVersion) -> Seq<Seq<char>> {
    opt_seq(version_problem(Some(c.since), max, "Class '"@ + c.name@ + "', attribute 'since'"@))
        + opt_seq(
        version_problem(c.deprecated, max, "Class '"@ + c.name@ + "', attribute 'deprecated'"@),
    ) + members_version_problems(c, "field"@, c.fields@, max) + members_version_problems(
        c,
        "method"@,
        c.methods@,
        max,
    )
}

/// The problems of the classes' versions, in order.
pub open spec fn version_problems(classes: Seq<ApiClass>, max: MajorMinorVersion) -> Seq<Seq<char>>
    decreases classes.len(),
{
    if classes.len() == 0 {
        Seq::empty()
    } else {
        version_problems(classes.drop_last(), max) + class_version_problems(classes.last(), max)
    }
}

fn members_versions(c: &ApiClass, kind: &str, ms: &Vec<ApiMember>, max: MajorMinorVersion) -> (res: Vec<
    String,
>)
    ensures
        strings_view(res@) == members_version_problems(*c, kind@, ms@, max),
{
    let mut out: Vec<String> = Vec::new();
    let mut i: usize = 0;
    assert(strings_view(out@) =~= members_version_problems(*c, kind@, ms@.take(0), max));
    while i < ms.len()
        invariant
            i <= ms@.len(),
            strings_view(out@) == members_version_problems(*c, kind@, ms@.take(i as int), max),
        decreases ms@.len() - i,
    {
        assert(ms@.take(i + 1).drop_last() == ms@.take(i as int));
        let m = &ms[i];
        let mut id = String::from_str("Class '");
        id.append(c.name.as_str());
        id.append("', ");
        id.append(kind);
        id.append(" '");
        id.append(m.name.as_str());
        id.append("'");
        let mut since_context = id.clone();
        since_context.append(", attribute 'since'");
        let mut deprecated_context = id;
        deprecated_context.append(", attribute 'deprecated'");
        let a = check_version_msg(m.since, max, since_context);
        let b = check_version_msg(m.deprecated, max, deprecated_context);
        let ghost before = strings_view(out@);
        push_opt(&mut out, a);
        push_opt(&mut out, b);
        assert(strings_view(out@) =~= before + member_version_problems(*c, kind@, *m, max));
        i = i + 1;
    }
    assert(ms@.take(ms@.len() as int) == ms@);
    out
}

/// The problems of versions later than `max_sdk_version`, class by class:
/// the class's `since` and `deprecated`, then those of its fields and of its
/// methods.
pub fn no_deprecated_after_last_known(api: &Api, max_sdk_version: MajorMinorVersion) -> (res: Vec<
    String,
>)
    ensures
        strings_view(res@) == version_problems(api.classes@, max_sdk_version),
{
    let mut problems: Vec<String> = Vec::new();
    let mut i: usize = 0;
    assert(strings_view(problems@) =~= version_problems(api.classes@.take(0), max_sdk_version));
    while i < api.classes.len()
        invariant
            i <= api.classes@.len(),
            strings_view(problems@) == version_problems(api.classes@.take(i as int), max_sdk_version),
        decreases api.classes@.len() - i,
    {
        let class = &api.classes[i];
        assert(api.classes@.take(i + 1).drop_last() == api.classes@.take(i as int));
        let mut since_context = String::from_str("Class '");
        since_context.append(class.name.as_str());
        since_context.append("', attribute 'since'");
        let mut deprecated_context = String::from_str("Class '");
        deprecated_context.append(class.name.as_str());
        deprecated_context.append("', attribute 'deprecated'");
        let ghost before = strings_view(problems@);
        push_opt(&mut problems, check_version_msg(Some(class.since), max_sdk_version, since_context));
        push_opt(
            &mut problems,
            check_version_msg(class.deprecated, max_sdk_version, deprecated_context),
        );
        append_strings(&mut problems, members_versions(class, "field", &class.fields, max_sdk_version));
        append_strings(
            &mut problems,
            members_versions(class, "method", &class.methods, max_sdk_version),
        );
        assert(strings_view(problems@) =~= before + class_version_problems(*class, max_sdk_version));
        i = i + 1;
    }
    assert(api.classes@.take(api.classes@.len() as int) == api.classes@);
    problems
}

// ---------------------------------------------------------------------------
// AdServices extension crossover
/// The extension of an `<extension>:<version>` entry.
pub open spec fn entry_extension(entry: Seq<char>) -> Seq<char> {
    split_on(entry, ':')[0]
}

/// The extensions of an sdks value: one per comma-separated entry.
pub open spec fn sdk_extensions(sdks: Seq<char>) -> Seq<Seq<char>> {
    split_on(sdks, ',').map_values(|e: Seq<char>| entry_extension(e))
}

/// Every entry of an sdks value is `<extension>:<version>` and no extension
/// appears twice (else the checker panics).
pub open spec fn sdk_string_well_formed(sdks: Seq<char>) -> bool {
    &&& forall|i: int|
        0 <= i < split_on(sdks, ',').len() ==> (#[trigger] split_on(split_on(sdks, ',')[i], ':')).len()
            == 2
    &&& forall|i: int, j: int|
        0 <= i < j < sdk_extensions(sdks).len() ==> #[trigger] sdk_extensions(sdks)[i]
            != #[trigger] sdk_extensions(sdks)[j]
}

/// Message of the error for an API in AdServices and another extension.
pub open spec fn adservices_crossover_msg(sdks: Seq<char>) -> Seq<char> {
    "Found extra extension value in addition to adservices: "@ + sdks
}

/// An sdks value that lists the AdServices extension (1000000) may list no
/// other extension than the platform (0).
pub open spec fn spec_validate_sdk_string(sdks: Seq<char>) -> Result<Seq<char>, Seq<char>> {
    let exts = sdk_extensions(sdks);
    if (exists|i: int| 0 <= i < exts.len() && #[trigger] exts[i] == "1000000"@) && !(forall|j: int|
        0 <= j < exts.len() ==> #[trigger] exts[j] == "1000000"@ || exts[j] == "0"@) {
        Err(adservices_crossover_msg(sdks))
    } else {
        Ok(Seq::empty())
    }
}

/// Validates an sdks value: with the AdServices extension (1000000), the
/// only other extension allowed is the platform (0). `Ok` holds an empty
/// string.
pub fn validate_sdk_string(sdks: &String) -> (res: Result<String, String>)
    requires
        sdk_string_well_formed(sdks@),
    ensures
        match (res, spec_validate_sdk_string(sdks@)) {
            (Ok(s), Ok(t)) => s@ == t,
            (Err(e), Err(m)) => e@ == m,
            _ => false,
        },
{
    let entries = split_chars(&chars_of(sdks.as_str()), ',');
    let ghost exts = sdk_extensions(sdks@);
    let adservices = chars_of("1000000");
    let platform = chars_of("0");
    let mut has_adservices = false;
    let mut only_allowed = true;
    let mut i: usize = 0;
    while i < entries.len()
        invariant
            i <= entries@.len(),
            entries@.len() == split_on(sdks@, ',').len(),
            forall|k: int| 0 <= k < entries@.len() ==> #[trigger] entries@[k]@ == split_on(sdks@, ',')[k],
            exts == sdk_extensions(sdks@),
            adservices@ == "1000000"@,
            platform@ == "0"@,
            has_adservices == exists|k: int| 0 <= k < i && #[trigger] exts[k] == "1000000"@,
            only_allowed == forall|k: int|
                0 <= k < i ==> #[trigger] exts[k] == "1000000"@ || exts[k] == "0"@,
        decreases entries@.len() - i,
    {
        let parts = split_chars(&entries[i], ':');
        proof {
            crate::text::lemma_split_on_nonempty(entries@[i as int]@, ':');
        }
        let extension = &parts[0];
        assert(extension@ == exts[i as int]);
        let is_adservices = chars_equal(extension, &adservices);
        let is_platform = chars_equal(extension, &platform);
        if is_adservices {
            has_adservices = true;
        }
        if !is_adservices && !is_platform {
            only_allowed = false;
        }
        i = i + 1;
    }
    if has_adservices && !only_allowed {
        let mut msg = String::from_str("Found extra extension value in addition to adservices: ");
        msg.append(sdks.as_str());
        return Err(msg);
    }
    Ok(String::new())
}

/// The problem of an sdks value, if any.
pub open spec fn sdks_problem(sdks: Option<String>) -> Seq<Seq<char>> {
    match sdks {
        Some(s) => match spec_validate_sdk_string(s@) {
            Err(e) => seq![e],
            Ok(_) => Seq::empty(),
        },
        None => Seq::empty(),
    }
}

/// The problems of the members' sdks values, in order.
pub open spec fn members_sdks_problems(ms: Seq<ApiMember>) -> Seq<Seq<char>>
    decreases ms.len(),
{
    if ms.len() == 0 {
        Seq::empty()
    } else {
        members_sdks_problems(ms.drop_last()) + sdks_problem(ms.last().sdks)
    }
}

/// The problems of the classes' sdks values: each class's own, then its
/// fields', then its methods'.
pub open spec fn sdks_problems(classes: Seq<ApiClass>) -> Seq<Seq<char>>
    decreases classes.len(),
{
    if classes.len() == 0 {
        Seq::empty()
    } else {
        let c = classes.last();
        sdks_problems(classes.drop_last()) + sdks_problem(c.sdks) + members_sdks_problems(c.fields@)
            + members_sdks_problems(c.methods@)
    }
}

/// Every sdks value present is well formed.
pub open spec fn sdks_well_formed(sdks: Option<String>) -> bool {
    sdks matches Some(s) ==> sdk_string_well_formed(s@)
}

/// Every sdks value of the database is well formed.
pub open spec fn api_sdks_well_formed(classes: Seq<ApiClass>) -> bool {
    forall|i: int|
        0 <= i < classes.len() ==> {
            &&& sdks_well_formed(#[trigger] classes[i].sdks)
            &&& forall|k: int|
                0 <= k < classes[i].fields@.len() ==> sdks_well_formed(
                    #[trigger] classes[i].fields@[k].sdks,
                )
            &&& forall|k: int|
                0 <= k < classes[i].methods@.len() ==> sdks_well_formed(
                    #[trigger] classes[i].methods@[k].sdks,
                )
        }
}

fn sdks_check(sdks: &Option<String>) -> (res: Option<String>)
    requires
        sdks_well_formed(*sdks),
    ensures
        opt_seq(opt_view(res)) == sdks_problem(*sdks),
{
    if let Some(s) = sdks {
        if let Err(error) = validate_sdk_string(s) {
            return Some(error);
        }
    }
    None
}

fn members_sdks(ms: &Vec<ApiMember>) -> (res: Vec<String>)
    requires
        forall|k: int| 0 <= k < ms@.len() ==> sdks_well_formed(#[trigger] ms@[k].sdks),
    ensures
        strings_view(res@) == members_sdks_problems(ms@),
{
    let mut out: Vec<String> = Vec::new();
    let mut i: usize = 0;
    assert(strings_view(out@) =~= members_sdks_problems(ms@.take(0)));
    while i < ms.len()
        invariant
            i <= ms@.len(),
            forall|k: int| 0 <= k < ms@.len() ==> sdks_well_formed(#[trigger] ms@[k].sdks),
            strings_view(out@) == members_sdks_problems(ms@.take(i as int)),
        decreases ms@.len() - i,
    {
        assert(ms@.take(i + 1).drop_last() == ms@.take(i as int));
        push_opt(&mut out, sdks_check(&ms[i].sdks));
        i = i + 1;
    }
    assert(ms@.take(ms@.len() as int) == ms@);
    out
}

/// The problems of APIs that list the AdServices extension with another
/// one, class by class: the class's sdks value, then its fields', then its
/// methods'.
pub fn no_adservices_ext_crossover(api: &Api) -> (res: Vec<String>)
    requires
        api_sdks_well_formed(api.classes@),
    ensures
        strings_view(res@) == sdks_problems(api.classes@),
{
    let mut problems: Vec<String> = Vec::new();
    let mut i: usize = 0;
    assert(strings_view(problems@) =~= sdks_problems(api.classes@.take(0)));
    while i < api.classes.len()
        invariant
            i <= api.classes@.len(),
            api_sdks_well_formed(api.classes@),
            strings_view(problems@) == sdks_problems(api.classes@.take(i as int)),
        decreases api.classes@.len() - i,
    {
        let class = &api.classes[i];
        assert(api.classes@.take(i + 1).drop_last() == api.classes@.take(i as int));
        assert(sdks_well_formed(api.classes@[i as int].sdks));
        push_opt(&mut problems, sdks_check(&class.sdks));
        append_strings(&mut problems, members_sdks(&class.fields));
        append_strings(&mut problems, members_sdks(&class.methods));
        i = i + 1;
    }
    assert(api.classes@.take(api.classes@.len() as int) == api.classes@);
    problems
}

} // verus!
