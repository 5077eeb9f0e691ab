//! Decisions of Java code generation for an aconfig package: the element
//! that templates render for each flag, the flags grouped by namespace, the
//! rendering context, and the templates and files to render.

use vstd::prelude::*;

use crate::java_names::{
    ascii_upper, format_java_method_name, format_property_name, java_method_name,
    java_property_name, method_name_formattable, property_name_formattable, to_upper,
};
use crate::paths::{path_push, push_path};
use crate::text::{
    chars_equal, chars_of, hex_upper, pairs_view, split_chars, split_on, strictly_sorted, lemma_text_lt_transitive, lemma_text_lt_trichotomy,
    push_hex_upper, string_from_chars, strings_view, text_less, text_lt,
};

verus! {

/// Position at which `key` belongs in the strictly sorted `v`: the first
/// entry that does not come before it. Every entry before it comes before
/// `key`.
fn sorted_position(v: &Vec<String>, key: &Vec<char>) -> (p: usize)
    requires
        strictly_sorted(strings_view(v@)),
    ensures
        p <= v@.len(),
        forall|i: int| 0 <= i < p ==> text_lt(#[trigger] v@[i]@, key@),
        p < v@.len() ==> !text_lt(v@[p as int]@, key@),
{
    let mut p: usize = 0;
    let mut searching = true;
    while searching && p < v.len()
        invariant
            p <= v@.len(),
            forall|i: int| 0 <= i < p ==> text_lt(#[trigger] v@[i]@, key@),
            !searching ==> p < v@.len() && !text_lt(v@[p as int]@, key@),
        decreases v@.len() - p + if searching { 1int } else { 0int },
    {
        let cur = chars_of(v[p].as_str());
        if text_less(&cur, key) {
            p = p + 1;
        } else {
            searching = false;
        }
    }
    p
}

/// Adds a text to a strictly sorted list of texts, unless it holds it: the
/// list stays strictly sorted and holds the texts it held and the new one.
pub fn insert_sorted(set: &mut Vec<String>, s: String)
    requires
        strictly_sorted(strings_view(old(set)@)),
    ensures
        strictly_sorted(strings_view(final(set)@)),
        forall|t: Seq<char>|
            strings_view(final(set)@).contains(t) <==> (strings_view(old(set)@).contains(t) || t
                == s@),
{
    let ghost old_v = strings_view(set@);
    let key = chars_of(s.as_str());
    let p = sorted_position(set, &key);
    if p < set.len() {
        let cur = chars_of(set[p].as_str());
        if chars_equal(&cur, &key) {
            assert(old_v[p as int] == s@);
            return;
        }
    }
    let ghost sv = s@;
    set.insert(p, s);
    let ghost new_v = strings_view(set@);
    assert(new_v =~= old_v.insert(p as int, sv));
    assert forall|i: int, j: int| 0 <= i < j < new_v.len() implies text_lt(
        #[trigger] new_v[i],
        #[trigger] new_v[j],
    ) by {
        if p < old_v.len() {
            lemma_text_lt_trichotomy(old_v[p as int], sv);
        }
        if j > p + 1 {
            lemma_text_lt_transitive(sv, old_v[p as int], new_v[j]);
        }
        if i < p && j > p {
            lemma_text_lt_transitive(new_v[i], sv, new_v[j]);
        }
    }
    assert forall|t: Seq<char>| new_v.contains(t) <==> (old_v.contains(t) || t == sv) by {
        if new_v.contains(t) {
            let k = choose|k: int| 0 <= k < new_v.len() && new_v[k] == t;
            if k < p {
                assert(old_v[k] == t);
            } else if k > p {
                assert(old_v[k - 1] == t);
            }
        }
        if old_v.contains(t) {
            let k = choose|k: int| 0 <= k < old_v.len() && old_v[k] == t;
            if k < p {
                assert(new_v[k] == t);
            } else {
                assert(new_v[k + 1] == t);
            }
        }
        if t == sv {
            assert(new_v[p as int] == t);
        }
    }
}

/// Where a flag's value is stored at run time.
#[derive(Clone, Copy, Debug, PartialEq, Eq, Structural)]
pub enum FlagStorageBackend {
    DeviceConfig,
    Aconfigd,
    Unspecified,
}

/// What code generation reads of a parsed flag.
pub struct ParsedFlag {
    pub name: String,
    pub namespace: String,
    pub container: String,
    /// The flag's state is ENABLED.
    pub enabled: bool,
    /// The flag's permission is READ_WRITE.
    pub read_write: bool,
    pub storage: FlagStorageBackend,
}

/// What code generation looks up for a flag outside the flag itself: its
/// device config identifier, its offset in the storage file, and the SDK
/// level at which it was finalized, with the Java check and annotation of
/// that level.
pub struct FlagLookup {
    pub device_config_flag: String,
    pub flag_offset: u16,
    pub finalized_sdk_present: bool,
    pub finalized_sdk_check: String,
    pub finalized_sdk_annotation: String,
}

/// A flag as the Java templates render it.
#[derive(Debug)]
pub struct FlagElement {
    pub container: String,
    pub default_value: bool,
    pub device_config_namespace: String,
    pub device_config_flag: String,
    pub flag_name: String,
    pub flag_name_constant_suffix: String,
    pub flag_offset: u16,
    pub is_read_write: bool,
    pub method_name: String,
    pub properties: String,
    pub finalized_sdk_present: bool,
    pub finalized_sdk_check: String,
    pub finalized_sdk_annotation: String,
}

/// ASCII upper case of every character.
pub open spec fn upper_all(s: Seq<char>) -> Seq<char> {
    s.map_values(|c: char| ascii_upper(c))
}

/// The names of a flag can be formatted as Java identifiers.
pub open spec fn flag_formattable(pf: ParsedFlag) -> bool {
    method_name_formattable(pf.name@) && property_name_formattable(pf.namespace@)
}

/// The element of a flag, given what was looked up for it.
pub open spec fn is_flag_element(e: FlagElement, pf: ParsedFlag, l: FlagLookup) -> bool {
    &&& e.container@ == pf.container@
    &&& e.default_value == pf.enabled
    &&& e.device_config_namespace@ == pf.namespace@
    &&& e.device_config_flag@ == l.device_config_flag@
    &&& e.flag_name@ == pf.name@
    &&& e.flag_name_constant_suffix@ == upper_all(pf.name@)
    &&& e.flag_offset == l.flag_offset
    &&& e.is_read_write == pf.read_write
    &&& e.method_name@ == java_method_name(pf.name@)
    &&& e.properties@ == java_property_name(pf.namespace@)
    &&& e.finalized_sdk_present == l.finalized_sdk_present
    &&& e.finalized_sdk_check@ == l.finalized_sdk_check@
    &&& e.finalized_sdk_annotation@ == l.finalized_sdk_annotation@
}

/// The ASCII upper case of a text.
fn to_ascii_uppercase(s: &str) -> (res: String)
    ensures
        res@ == upper_all(s@),
{
    let chars = chars_of(s);
    let mut out: Vec<char> = Vec::new();
    let mut i: usize = 0;
    while i < chars.len()
        invariant
            i <= chars@.len(),
            out@ == upper_all(chars@.take(i as int)),
        decreases chars@.len() - i,
    {
        out.push(to_upper(chars[i]));
        i = i + 1;
        assert(upper_all(chars@.take(i as int)) =~= upper_all(chars@.take(i - 1)).push(
            ascii_upper(chars@[i - 1]),
        ));
    }
    assert(chars@.take(chars@.len() as int) == chars@);
    string_from_chars(&out)
}

/// The element that the templates render for a flag: its own names and
/// state, the Java names derived from them, and what was looked up for it.
pub fn create_flag_element(pf: &ParsedFlag, lookup: &FlagLookup) -> (res: FlagElement)
    requires
        flag_formattable(*pf),
    ensures
        is_flag_element(res, *pf, *lookup),
{
    FlagElement {
        container: pf.container.clone(),
        default_value: pf.enabled,
        device_config_namespace: pf.namespace.clone(),
        device_config_flag: lookup.device_config_flag.clone(),
        flag_name: pf.name.clone(),
        flag_name_constant_suffix: to_ascii_uppercase(pf.name.as_str()),
        flag_offset: lookup.flag_offset,
        is_read_write: pf.read_write,
        method_name: format_java_method_name(pf.name.as_str()),
        properties: format_property_name(pf.namespace.as_str()),
        finalized_sdk_present: lookup.finalized_sdk_present,
        finalized_sdk_check: lookup.finalized_sdk_check.clone(),
        finalized_sdk_annotation: lookup.finalized_sdk_annotation.clone(),
    }
}

impl FlagElement {
    /// A copy of the element.
    pub fn duplicate(&self) -> (res: FlagElement)
        ensures
            res == *self,
    {
        FlagElement {
            container: self.container.clone(),
            default_value: self.default_value,
            device_config_namespace: self.device_config_namespace.clone(),
            device_config_flag: self.device_config_flag.clone(),
            flag_name: self.flag_name.clone(),
            flag_name_constant_suffix: self.flag_name_constant_suffix.clone(),
            flag_offset: self.flag_offset,
            is_read_write: self.is_read_write,
            method_name: self.method_name.clone(),
            properties: self.properties.clone(),
            finalized_sdk_present: self.finalized_sdk_present,
            finalized_sdk_check: self.finalized_sdk_check.clone(),
            finalized_sdk_annotation: self.finalized_sdk_annotation.clone(),
        }
    }
}

/// The flags of one namespace.
pub struct NamespaceFlags {
    pub namespace: String,
    pub flags: Vec<FlagElement>,
}

/// The predicate of flags of namespace `ns`.
pub open spec fn in_namespace(ns: Seq<char>) -> spec_fn(FlagElement) -> bool {
    |f: FlagElement| f.device_config_namespace@ == ns
}

/// The namespaces of the groups, in order.
pub open spec fn group_namespaces(groups: Seq<NamespaceFlags>) -> Seq<Seq<char>> {
    groups.map_values(|g: NamespaceFlags| g.namespace@)
}

/// `groups` are the flags grouped by namespace: one group for each namespace
/// of the flags and no other, in increasing order of namespace, each with
/// the flags of its namespace in their order.
pub open spec fn grouped_by_namespace(groups: Seq<NamespaceFlags>, flags: Seq<FlagElement>) -> bool {
    &&& strictly_sorted(group_namespaces(groups))
    &&& forall|k: int|
        0 <= k < flags.len() ==> group_namespaces(groups).contains(
            #[trigger] flags[k].device_config_namespace@,
        )
    &&& forall|g: int|
        0 <= g < groups.len() ==> (#[trigger] groups[g]).flags@ == flags.filter(
            in_namespace(groups[g].namespace@),
        ) && groups[g].flags@.len() > 0
}

/// Grouping by namespace places every flag in the group of its namespace
/// and in no other group.
pub proof fn lemma_groups_partition_flags(groups: Seq<NamespaceFlags>, flags: Seq<FlagElement>)
    requires
        grouped_by_namespace(groups, flags),
    ensures
        forall|k: int, g: int|
            0 <= k < flags.len() && 0 <= g < groups.len() ==> (
            #[trigger] groups[g].flags@.contains(#[trigger] flags[k])
                <==> groups[g].namespace@ == flags[k].device_config_namespace@),
{
    assert forall|k: int, g: int|
        0 <= k < flags.len() && 0 <= g < groups.len() implies (#[trigger] groups[g].flags@.contains(
        #[trigger] flags[k],
    ) <==> groups[g].namespace@ == flags[k].device_config_namespace@) by {
        let pred = in_namespace(groups[g].namespace@);
        let members = flags.filter(pred);
        assert(groups[g].flags@ == members);
        if groups[g].namespace@ == flags[k].device_config_namespace@ {
            flags.lemma_filter_contains(pred, k);
        }
        if members.contains(flags[k]) {
            let m = choose|m: int| 0 <= m < members.len() && members[m] == flags[k];
            flags.lemma_filter_pred(pred, m);
        }
    }
}

/// A sequence none of whose items satisfies `pred` filters to nothing.
proof fn lemma_filter_none<A>(s: Seq<A>, pred: spec_fn(A) -> bool)
    requires
        forall|i: int| 0 <= i < s.len() ==> !pred(#[trigger] s[i]),
    ensures
        s.filter(pred) == Seq::<A>::empty(),
    decreases s.len(),
{
    reveal(Seq::filter);
    if s.len() > 0 {
        lemma_filter_none(s.drop_last(), pred);
        assert(!pred(s[s.len() - 1]));
    }
}

/// Filtering one more item.
proof fn lemma_filter_push<A>(s: Seq<A>, x: A, pred: spec_fn(A) -> bool)
    ensures
        s.push(x).filter(pred) == if pred(x) {
            s.filter(pred).push(x)
        } else {
            s.filter(pred)
        },
{
    reveal(Seq::filter);
    assert(s.push(x).drop_last() =~= s);
}

/// A text absent from its place in a strictly sorted sequence is absent
/// from the sequence.
proof fn lemma_absent_from_sorted(v: Seq<Seq<char>>, key: Seq<char>, p: int)
    requires
        strictly_sorted(v),
        0 <= p <= v.len(),
        forall|i: int| 0 <= i < p ==> text_lt(#[trigger] v[i], key),
        p < v.len() ==> !text_lt(v[p], key) && v[p] != key,
    ensures
        !v.contains(key),
{
    if v.contains(key) {
        let g = choose|g: int| 0 <= g < v.len() && v[g] == key;
        crate::text::lemma_text_lt_irreflexive(key);
        if g > p {
            lemma_text_lt_trichotomy(v[p], key);
            lemma_text_lt_transitive(key, v[p], v[g]);
        }
    }
}

/// Position at which `key` belongs among the groups sorted by namespace.
fn group_position(groups: &Vec<NamespaceFlags>, key: &Vec<char>) -> (p: usize)
    requires
        strictly_sorted(group_namespaces(groups@)),
    ensures
        p <= groups@.len(),
        forall|i: int| 0 <= i < p ==> text_lt(#[trigger] group_namespaces(groups@)[i], key@),
        p < groups@.len() ==> !text_lt(group_namespaces(groups@)[p as int], key@),
{
    let ghost ns = group_namespaces(groups@);
    let mut p: usize = 0;
    let mut searching = true;
    while searching && p < groups.len()
        invariant
            p <= groups@.len(),
            ns == group_namespaces(groups@),
            forall|i: int| 0 <= i < p ==> text_lt(#[trigger] ns[i], key@),
            !searching ==> p < groups@.len() && !text_lt(ns[p as int], key@),
        decreases groups@.len() - p + if searching { 1int } else { 0int },
    {
        let cur = chars_of(groups[p].namespace.as_str());
        if text_less(&cur, key) {
            p = p + 1;
        } else {
            searching = false;
        }
    }
    p
}

/// Groups the flags by namespace, in increasing order of namespace; each
/// group keeps the flags of its namespace in their order.
#[verifier::spinoff_prover]
pub fn gen_flags_by_namespace(flags: &Vec<FlagElement>) -> (res: Vec<NamespaceFlags>)
    ensures
        grouped_by_namespace(res@, flags@),
{
    let mut groups: Vec<NamespaceFlags> = Vec::new();
    let mut k: usize = 0;
    assert(flags@.take(0) =~= Seq::<FlagElement>::empty());
    while k < flags.len()
        invariant
            k <= flags@.len(),
            grouped_by_namespace(groups@, flags@.take(k as int)),
        decreases flags@.len() - k,
    {
        let x = &flags[k];
        let ghost before = groups@;
        let ghost old_ns = group_namespaces(groups@);
        let ghost prefix = flags@.take(k as int);
        let ghost key_v = x.device_config_namespace@;
        assert(flags@.take(k + 1) =~= prefix.push(*x));
        let key = chars_of(x.device_config_namespace.as_str());
        let p = group_position(&groups, &key);
        let mut found = false;
        if p < groups.len() {
            let cur = chars_of(groups[p].namespace.as_str());
            found = chars_equal(&cur, &key);
        }
        if found {
            let mut g = groups.remove(p);
            g.flags.push(x.duplicate());
            groups.insert(p, g);
            proof {
                assert(groups@ =~= before.update(p as int, g));
                assert(group_namespaces(groups@) =~= old_ns);
                assert forall|i: int| 0 <= i < groups@.len() implies (#[trigger] groups@[i]).flags@
                    == flags@.take(k + 1).filter(in_namespace(groups@[i].namespace@))
                    && groups@[i].flags@.len() > 0 by {
                    lemma_filter_push(prefix, *x, in_namespace(groups@[i].namespace@));
                    if i != p {
                        assert(old_ns[i] != old_ns[p as int]) by {
                            if i < p {
                                crate::text::lemma_text_lt_irreflexive(old_ns[i]);
                            } else {
                                crate::text::lemma_text_lt_irreflexive(old_ns[p as int]);
                            }
                        }
                    }
                }
                assert forall|m: int| 0 <= m < flags@.take(k + 1).len() implies group_namespaces(
                    groups@,
                ).contains(#[trigger] flags@.take(k + 1)[m].device_config_namespace@) by {
                    if m < k {
                        assert(flags@.take(k + 1)[m] == prefix[m]);
                        assert(old_ns.contains(prefix[m].device_config_namespace@));
                    } else {
                        assert(flags@.take(k + 1)[m] == *x);
                        assert(group_namespaces(groups@)[p as int] == key_v);
                    }
                }
            }
        } else {
            let group = NamespaceFlags {
                namespace: x.device_config_namespace.clone(),
                flags: vec![x.duplicate()],
            };
            proof {
                if p < groups@.len() {
                    assert(old_ns[p as int] != key_v);
                }
                lemma_absent_from_sorted(old_ns, key_v, p as int);
                assert forall|m: int| 0 <= m < prefix.len() implies !in_namespace(key_v)(
                    #[trigger] prefix[m],
                ) by {
                    if prefix[m].device_config_namespace@ == key_v {
                        assert(old_ns.contains(key_v));
                    }
                }
                lemma_filter_none(prefix, in_namespace(key_v));
                lemma_filter_push(prefix, *x, in_namespace(key_v));
            }
            let ghost gv = group;
            groups.insert(p, group);
            proof {
                let ns2 = group_namespaces(groups@);
                assert(groups@ =~= before.insert(p as int, gv));
                assert(ns2 =~= old_ns.insert(p as int, key_v));
                assert forall|i: int, j: int| 0 <= i < j < ns2.len() implies text_lt(
                    #[trigger] ns2[i],
                    #[trigger] ns2[j],
                ) by {
                    if p < old_ns.len() {
                        lemma_text_lt_trichotomy(old_ns[p as int], key_v);
                    }
                    if j > p + 1 {
                        lemma_text_lt_transitive(key_v, old_ns[p as int], ns2[j]);
                    }
                    if i < p && j > p {
                        lemma_text_lt_transitive(ns2[i], key_v, ns2[j]);
                    }
                }
                assert forall|i: int| 0 <= i < groups@.len() implies (#[trigger] groups@[i]).flags@
                    == flags@.take(k + 1).filter(in_namespace(groups@[i].namespace@))
                    && groups@[i].flags@.len() > 0 by {
                    if i != p {
                        let oi = if i < p { i } else { i - 1 };
                        assert(groups@[i] == before[oi]);
                        assert(old_ns[oi] != key_v);
                        lemma_filter_push(prefix, *x, in_namespace(groups@[i].namespace@));
                    } else {
                        assert(gv.flags@ =~= seq![*x]);
                        assert(Seq::<FlagElement>::empty().push(*x) =~= seq![*x]);
                    }
                }
                assert forall|m: int| 0 <= m < flags@.take(k + 1).len() implies ns2.contains(
                    #[trigger] flags@.take(k + 1)[m].device_config_namespace@,
                ) by {
                    if m < k {
                        assert(flags@.take(k + 1)[m] == prefix[m]);
                        let t = prefix[m].device_config_namespace@;
                        assert(old_ns.contains(t));
                        let o = choose|o: int| 0 <= o < old_ns.len() && old_ns[o] == t;
                        if o < p {
                            assert(ns2[o] == t);
                        } else {
                            assert(ns2[o + 1] == t);
                        }
                    } else {
                        assert(ns2[p as int] == key_v);
                    }
                }
            }
        }
        k = k + 1;
    }
    assert(flags@.take(flags@.len() as int) =~= flags@);
    groups
}

/// The kind of code to generate.
#[derive(Clone, Copy, Debug, PartialEq, Eq, Structural, Default)]
pub enum CodegenMode {
    Exported,
    ForceReadOnly,
    #[default]
    Production,
    Test,
}

/// Settings of Java code generation, besides what is looked up per flag.
#[derive(Default)]
pub struct JavaCodegenConfig {
    pub codegen_mode: CodegenMode,
    pub package_fingerprint: u64,
    pub single_exported_file: bool,
    /// Add the "@UnsupportedAppUsage" annotation to the generated code.
    pub support_uau_annotation: bool,
    /// Optimize read-only flag reads by short-circuiting test override
    /// support.
    pub optimize_read_only_getter: bool,
    /// Allow streamlining and/or omission of the internal impl interface for
    /// supported read-only scenarios.
    pub allow_impl_interface_removal: bool,
    pub generate_checks_sdk_annotation: bool,
}

/// What the Java templates are rendered from.
pub struct JavaContext {
    pub flag_elements: Vec<FlagElement>,
    pub overridable_flag_elements: Vec<FlagElement>,
    pub namespace_flags: Vec<NamespaceFlags>,
    pub is_test_mode: bool,
    pub runtime_lookup_required: bool,
    /// The property field names, in increasing order, each once.
    pub properties_set: Vec<String>,
    pub package_name: String,
    pub library_exported: bool,
    pub container: String,
    pub is_platform_container: bool,
    pub package_fingerprint: String,
    pub single_exported_file: bool,
    pub preserve_impl_interface: bool,
    pub use_device_config: bool,
    pub support_uau_annotation: bool,
    pub optimize_read_only_getter: bool,
    pub generate_checks_sdk_annotation: bool,
    pub is_read_only_optimized: bool,
}

/// Among the first `n` flags, one is stored in device config and one in
/// aconfigd.
pub open spec fn mixes_storage(flags: Seq<ParsedFlag>, n: int) -> bool {
    &&& exists|i: int|
        0 <= i < n && (#[trigger] flags[i]).storage == FlagStorageBackend::DeviceConfig
    &&& exists|i: int| 0 <= i < n && (#[trigger] flags[i]).storage == FlagStorageBackend::Aconfigd
}

/// Message of the error for a package that mixes the two storages.
pub open spec fn mixed_storage_msg(package: Seq<char>) -> Seq<char> {
    "Package "@ + package + " cannot contain both device_config and new storage stored flags"@
}

/// The error at which generation stops at flag `i`, if any: first the
/// check that the flags so far do not mix storages, then the flag's lookup.
pub open spec fn step_error(
    package: Seq<char>,
    flags: Seq<ParsedFlag>,
    lookups: Seq<Result<FlagLookup, String>>,
    i: int,
) -> Option<Seq<char>> {
    if mixes_storage(flags, i + 1) {
        Some(mixed_storage_msg(package))
    } else {
        match lookups[i] {
            Ok(_) => None,
            Err(e) => Some(e@),
        }
    }
}

/// The first error among the first `n` flags, if any.
#[verifier::opaque]
pub open spec fn first_error(
    package: Seq<char>,
    flags: Seq<ParsedFlag>,
    lookups: Seq<Result<FlagLookup, String>>,
    n: nat,
) -> Option<Seq<char>>
    decreases n,
{
    if n == 0 {
        None
    } else {
        match first_error(package, flags, lookups, (n - 1) as nat) {
            Some(e) => Some(e),
            None => step_error(package, flags, lookups, n - 1),
        }
    }
}

/// The flags kept in the FeatureFlags API: all of them, unless read-only
/// getters are optimized and the impl interface need not be preserved, in
/// which case the read-write ones.
pub open spec fn overridable(config: JavaCodegenConfig) -> spec_fn(FlagElement) -> bool {
    |fe: FlagElement|
        fe.is_read_write || !config.optimize_read_only_getter || !config.allow_impl_interface_removal
}

/// A container of the platform.
pub open spec fn is_platform_container_name(c: Seq<char>) -> bool {
    c == "system"@ || c == "system_ext"@ || c == "product"@ || c == "vendor"@
}

/// The package fingerprint as a Java long literal: `0x`, upper-case
/// hexadecimal, `L`.
pub open spec fn fingerprint_literal(fp: u64) -> Seq<char> {
    "0x"@ + hex_upper(fp as nat) + "L"@
}

/// `ctx` is the rendering context of the package's flags, each with what
/// was looked up for it, under `config`.
pub open spec fn is_java_context(
    ctx: JavaContext,
    package: Seq<char>,
    flags: Seq<ParsedFlag>,
    lookups: Seq<Result<FlagLookup, String>>,
    config: JavaCodegenConfig,
) -> bool {
    let elements = ctx.flag_elements@;
    let is_test_mode = config.codegen_mode == CodegenMode::Test;
    let library_exported = config.codegen_mode == CodegenMode::Exported;
    let runtime_lookup_required = (exists|i: int| 0 <= i < flags.len() && (#[trigger] flags[i]).read_write)
        || library_exported;
    let preserve_impl_interface = !config.allow_impl_interface_removal;
    &&& elements.len() == flags.len()
    &&& forall|i: int|
        0 <= i < flags.len() ==> match #[trigger] lookups[i] {
            Ok(l) => is_flag_element(elements[i], flags[i], l),
            Err(_) => false,
        }
    &&& ctx.overridable_flag_elements@ == elements.filter(overridable(config))
    &&& grouped_by_namespace(ctx.namespace_flags@, elements)
    &&& ctx.is_test_mode == is_test_mode
    &&& ctx.runtime_lookup_required == runtime_lookup_required
    &&& strictly_sorted(strings_view(ctx.properties_set@))
    &&& forall|t: Seq<char>|
        strings_view(ctx.properties_set@).contains(t) <==> exists|i: int|
            0 <= i < flags.len() && t == java_property_name((#[trigger] flags[i]).namespace@)
    &&& ctx.package_name@ == package
    &&& ctx.library_exported == library_exported
    &&& ctx.container@ == flags[0].container@
    &&& ctx.is_platform_container == is_platform_container_name(flags[0].container@)
    &&& ctx.package_fingerprint@ == fingerprint_literal(config.package_fingerprint)
    &&& ctx.single_exported_file == config.single_exported_file
    &&& ctx.preserve_impl_interface == preserve_impl_interface
    &&& ctx.use_device_config == exists|i: int|
        0 <= i < flags.len() && (#[trigger] flags[i]).storage == FlagStorageBackend::DeviceConfig
    &&& ctx.support_uau_annotation == config.support_uau_annotation
    &&& ctx.optimize_read_only_getter == config.optimize_read_only_getter
    &&& ctx.generate_checks_sdk_annotation == config.generate_checks_sdk_annotation
    &&& ctx.is_read_only_optimized == (ctx.overridable_flag_elements@.len() == 0 && !is_test_mode
        && !preserve_impl_interface && !runtime_lookup_required)
}

/// Once an error is met, it stays the first one.
proof fn lemma_first_error_stays(
    package: Seq<char>,
    flags: Seq<ParsedFlag>,
    lookups: Seq<Result<FlagLookup, String>>,
    i: nat,
    n: nat,
)
    requires
        i <= n,
        first_error(package, flags, lookups, i) is Some,
    ensures
        first_error(package, flags, lookups, n) == first_error(package, flags, lookups, i),
    decreases n - i,
{
    reveal(first_error);
    if i < n {
        lemma_first_error_stays(package, flags, lookups, i, (n - 1) as nat);
    }
}

/// The first error among one more flag: the earlier first error, else the
/// error at that flag.
proof fn lemma_first_error_step(
    package: Seq<char>,
    flags: Seq<ParsedFlag>,
    lookups: Seq<Result<FlagLookup, String>>,
    i: nat,
)
    ensures
        first_error(package, flags, lookups, i + 1) == match first_error(
            package,
            flags,
            lookups,
            i,
        ) {
            Some(e) => Some(e),
            None => step_error(package, flags, lookups, i as int),
        },
{
    reveal(first_error);
}

/// Whether a container is one of the platform's.
fn platform_container(container: &str) -> (res: bool)
    ensures
        res == is_platform_container_name(container@),
{
    let c = chars_of(container);
    let system = chars_of("system");
    let system_ext = chars_of("system_ext");
    let product = chars_of("product");
    let vendor = chars_of("vendor");
    chars_equal(&c, &system) || chars_equal(&c, &system_ext) || chars_equal(&c, &product)
        || chars_equal(&c, &vendor)
}

/// The package fingerprint as a Java long literal.
fn fingerprint_text(fp: u64) -> (res: String)
    ensures
        res@ == fingerprint_literal(fp),
{
    let mut s = String::from_str("0x");
    push_hex_upper(&mut s, fp);
    s.append("L");
    s
}

/// The elements kept in the FeatureFlags API, in order.
fn overridable_elements(elements: &Vec<FlagElement>, config: &JavaCodegenConfig) -> (res: Vec<
    FlagElement,
>)
    ensures
        res@ == elements@.filter(overridable(*config)),
{
    let mut out: Vec<FlagElement> = Vec::new();
    let mut j: usize = 0;
    assert(elements@.take(0) =~= Seq::<FlagElement>::empty());
    proof {
        reveal(Seq::filter);
    }
    while j < elements.len()
        invariant
            j <= elements@.len(),
            out@ == elements@.take(j as int).filter(overridable(*config)),
        decreases elements@.len() - j,
    {
        let fe = &elements[j];
        proof {
            assert(elements@.take(j + 1) =~= elements@.take(j as int).push(*fe));
            lemma_filter_push(elements@.take(j as int), *fe, overridable(*config));
        }
        if fe.is_read_write || !config.optimize_read_only_getter
            || !config.allow_impl_interface_removal {
            out.push(fe.duplicate());
        }
        j = j + 1;
    }
    assert(elements@.take(elements@.len() as int) =~= elements@);
    out
}

/// The element of every flag, or the first error.
fn flag_elements(
    package: &str,
    flags: &Vec<ParsedFlag>,
    lookups: &Vec<Result<FlagLookup, String>>,
) -> (res: Result<Vec<FlagElement>, String>)
    requires
        flags@.len() == lookups@.len(),
        forall|i: int|
            0 <= i < flags@.len() && first_error(package@, flags@, lookups@, (i + 1) as nat)
                is None ==> #[trigger] flag_formattable(flags@[i]),
    ensures
        match res {
            Err(e) => first_error(package@, flags@, lookups@, flags@.len()) == Some(e@),
            Ok(elements) => first_error(package@, flags@, lookups@, flags@.len()) is None
                && elements@.len() == flags@.len() && forall|j: int|
                0 <= j < flags@.len() ==> match #[trigger] lookups@[j] {
                    Ok(l) => is_flag_element(elements@[j], flags@[j], l),
                    Err(_) => false,
                },
        },
{
    let mut use_device_config = false;
    let mut use_aconfigd = false;
    let mut elements: Vec<FlagElement> = Vec::new();
    let mut i: usize = 0;
    assert(first_error(package@, flags@, lookups@, 0) is None) by {
        reveal(first_error);
    }
    while i < flags.len()
        invariant
            i <= flags@.len(),
            flags@.len() == lookups@.len(),
            forall|j: int|
                0 <= j < flags@.len() && first_error(package@, flags@, lookups@, (j + 1) as nat)
                    is None ==> #[trigger] flag_formattable(flags@[j]),
            first_error(package@, flags@, lookups@, i as nat) is None,
            use_device_config == exists|j: int|
                0 <= j < i && (#[trigger] flags@[j]).storage == FlagStorageBackend::DeviceConfig,
            use_aconfigd == exists|j: int|
                0 <= j < i && (#[trigger] flags@[j]).storage == FlagStorageBackend::Aconfigd,
            elements@.len() == i,
            forall|j: int|
                0 <= j < i ==> match #[trigger] lookups@[j] {
                    Ok(l) => is_flag_element(elements@[j], flags@[j], l),
                    Err(_) => false,
                },
        decreases flags@.len() - i,
    {
        let pf = &flags[i];
        if pf.storage == FlagStorageBackend::DeviceConfig {
            use_device_config = true;
        }
        if pf.storage == FlagStorageBackend::Aconfigd {
            use_aconfigd = true;
        }
        proof {
            assert(use_device_config == exists|j: int|
                0 <= j < i + 1 && (#[trigger] flags@[j]).storage
                    == FlagStorageBackend::DeviceConfig) by {
                if flags@[i as int].storage == FlagStorageBackend::DeviceConfig {
                    assert(flags@[i as int].storage == FlagStorageBackend::DeviceConfig);
                }
            }
            assert(use_aconfigd == exists|j: int|
                0 <= j < i + 1 && (#[trigger] flags@[j]).storage == FlagStorageBackend::Aconfigd) by {
                if flags@[i as int].storage == FlagStorageBackend::Aconfigd {
                    assert(flags@[i as int].storage == FlagStorageBackend::Aconfigd);
                }
            }
        }
        proof {
            lemma_first_error_step(package@, flags@, lookups@, i as nat);
        }
        if use_device_config && use_aconfigd {
            let mut msg = String::from_str("Package ");
            msg.append(package);
            msg.append(" cannot contain both device_config and new storage stored flags");
            proof {
                lemma_first_error_stays(
                    package@,
                    flags@,
                    lookups@,
                    (i + 1) as nat,
                    flags@.len() as nat,
                );
            }
            return Err(msg);
        }
        match &lookups[i] {
            Err(e) => {
                proof {
                    lemma_first_error_stays(
                        package@,
                        flags@,
                        lookups@,
                        (i + 1) as nat,
                        flags@.len() as nat,
                    );
                }
                return Err(e.clone());
            },
            Ok(l) => {
                assert(first_error(package@, flags@, lookups@, (i + 1) as nat) is None);
                let e = create_flag_element(pf, l);
                let ghost before = elements@;
                elements.push(e);
                assert forall|j: int| 0 <= j < i + 1 implies match #[trigger] lookups@[j] {
                    Ok(l) => is_flag_element(elements@[j], flags@[j], l),
                    Err(_) => false,
                } by {
                    if j < i {
                        assert(elements@[j] == before[j]);
                    }
                }
            },
        }
        i = i + 1;
    }
    Ok(elements)
}

/// Whether some flag is stored in device config.
fn any_device_config(flags: &Vec<ParsedFlag>) -> (res: bool)
    ensures
        res == exists|i: int|
            0 <= i < flags@.len() && (#[trigger] flags@[i]).storage
                == FlagStorageBackend::DeviceConfig,
{
    let mut i: usize = 0;
    while i < flags.len()
        invariant
            i <= flags@.len(),
            forall|j: int|
                0 <= j < i ==> (#[trigger] flags@[j]).storage != FlagStorageBackend::DeviceConfig,
        decreases flags@.len() - i,
    {
        if flags[i].storage == FlagStorageBackend::DeviceConfig {
            return true;
        }
        i = i + 1;
    }
    false
}

/// Whether some flag is read-write.
fn any_read_write_flag(flags: &Vec<ParsedFlag>) -> (res: bool)
    ensures
        res == exists|i: int| 0 <= i < flags@.len() && (#[trigger] flags@[i]).read_write,
{
    let mut i: usize = 0;
    while i < flags.len()
        invariant
            i <= flags@.len(),
            forall|j: int| 0 <= j < i ==> !(#[trigger] flags@[j]).read_write,
        decreases flags@.len() - i,
    {
        if flags[i].read_write {
            return true;
        }
        i = i + 1;
    }
    false
}

/// The rendering context of Java code generation for the flags of
/// `package`, each with what was looked up for it (`lookups[i]` for
/// `flags[i]`). Flag by flag, generation fails on the first flag that makes
/// the flags so far mix device config and aconfigd storage, or whose lookup
/// failed; otherwise every flag becomes an element, and the context holds
/// them, their groups by namespace, the property names, and the settings
/// derived from `config`.
pub fn generate_java_context(
    package: &str,
    flags: &Vec<ParsedFlag>,
    lookups: &Vec<Result<FlagLookup, String>>,
    config: &JavaCodegenConfig,
) -> (res: Result<JavaContext, String>)
    requires
        flags@.len() == lookups@.len(),
        flags@.len() > 0,
        forall|i: int|
            0 <= i < flags@.len() && first_error(package@, flags@, lookups@, (i + 1) as nat)
                is None ==> #[trigger] flag_formattable(flags@[i]),
    ensures
        match res {
            Err(e) => first_error(package@, flags@, lookups@, flags@.len()) == Some(e@),
            Ok(ctx) => first_error(package@, flags@, lookups@, flags@.len()) is None
                && is_java_context(ctx, package@, flags@, lookups@, *config),
        },
{
    let elements = match flag_elements(package, flags, lookups) {
        Ok(e) => e,
        Err(e) => return Err(e),
    };
    let use_device_config = any_device_config(flags);
    let any_read_write = any_read_write_flag(flags);
    let namespace_flags = gen_flags_by_namespace(&elements);
    let mut properties_set: Vec<String> = Vec::new();
    let mut j: usize = 0;
    while j < elements.len()
        invariant
            j <= elements@.len(),
            elements@.len() == flags@.len(),
            forall|m: int|
                0 <= m < flags@.len() ==> match #[trigger] lookups@[m] {
                    Ok(l) => is_flag_element(elements@[m], flags@[m], l),
                    Err(_) => false,
                },
            strictly_sorted(strings_view(properties_set@)),
            forall|t: Seq<char>|
                strings_view(properties_set@).contains(t) <==> exists|m: int|
                    0 <= m < j && t == java_property_name((#[trigger] flags@[m]).namespace@),
        decreases elements@.len() - j,
    {
        let ghost old_set = strings_view(properties_set@);
        assert(match lookups@[j as int] {
            Ok(l) => is_flag_element(elements@[j as int], flags@[j as int], l),
            Err(_) => false,
        });
        insert_sorted(&mut properties_set, elements[j].properties.clone());
        proof {
            assert forall|t: Seq<char>| strings_view(properties_set@).contains(t) <==> exists|m: int|
                0 <= m < j + 1 && t == java_property_name((#[trigger] flags@[m]).namespace@) by {
                if t == java_property_name(flags@[j as int].namespace@) {
                    assert(exists|m: int|
                        0 <= m < j + 1 && t == java_property_name((#[trigger] flags@[m]).namespace@));
                }
                if exists|m: int|
                    0 <= m < j + 1 && t == java_property_name((#[trigger] flags@[m]).namespace@) {
                    let m = choose|m: int|
                        0 <= m < j + 1 && t == java_property_name((#[trigger] flags@[m]).namespace@);
                    if m < j {
                        assert(old_set.contains(t));
                    }
                }
            }
        }
        j = j + 1;
    }
    let is_test_mode = config.codegen_mode == CodegenMode::Test;
    let library_exported = config.codegen_mode == CodegenMode::Exported;
    let runtime_lookup_required = any_read_write || library_exported;
    assert(match lookups@[0] {
        Ok(l) => is_flag_element(elements@[0], flags@[0], l),
        Err(_) => false,
    });
    let container = elements[0].container.clone();
    let is_platform_container = platform_container(container.as_str());
    let preserve_impl_interface = !config.allow_impl_interface_removal;
    let overridable_flag_elements = overridable_elements(&elements, config);
    let is_read_only_optimized = overridable_flag_elements.len() == 0 && !is_test_mode
        && !preserve_impl_interface && !runtime_lookup_required;
    Ok(
        JavaContext {
            flag_elements: elements,
            overridable_flag_elements,
            namespace_flags,
            is_test_mode,
            runtime_lookup_required,
            properties_set,
            package_name: package.to_string(),
            library_exported,
            container,
            is_platform_container,
            package_fingerprint: fingerprint_text(config.package_fingerprint),
            single_exported_file: config.single_exported_file,
            preserve_impl_interface,
            use_device_config,
            support_uau_annotation: config.support_uau_annotation,
            optimize_read_only_getter: config.optimize_read_only_getter,
            generate_checks_sdk_annotation: config.generate_checks_sdk_annotation,
            is_read_only_optimized,
        },
    )
}

/// The template of FeatureFlagsImpl.java: test mode has its own; an
/// exported library uses the exported one, which relies on aconfigd
/// storage (an error if the flags use device config); otherwise the legacy
/// one for device config storage, else the aconfigd storage one.
pub open spec fn spec_feature_flags_impl_template(ctx: JavaContext) -> Result<Seq<char>, Seq<char>> {
    if ctx.is_test_mode {
        Ok("FeatureFlagsImpl.test_mode.java.template"@)
    } else if ctx.library_exported {
        if ctx.use_device_config {
            Err("All exported mode codegen should rely on new storage for safety"@)
        } else {
            Ok("FeatureFlagsImpl.exported.java.template"@)
        }
    } else if ctx.use_device_config {
        Ok("FeatureFlagsImpl.legacy_flag.internal.java.template"@)
    } else {
        Ok("FeatureFlagsImpl.new_storage.java.template"@)
    }
}

/// Chooses the template of FeatureFlagsImpl.java.
pub fn add_feature_flags_impl_template(context: &JavaContext) -> (res: Result<String, String>)
    ensures
        match (res, spec_feature_flags_impl_template(*context)) {
            (Ok(t), Ok(u)) => t@ == u,
            (Err(e), Err(m)) => e@ == m,
            _ => false,
        },
{
    if context.is_test_mode {
        return Ok(String::from_str("FeatureFlagsImpl.test_mode.java.template"));
    }
    if context.library_exported {
        if context.use_device_config {
            return Err(
                String::from_str("All exported mode codegen should rely on new storage for safety"),
            );
        }
        Ok(String::from_str("FeatureFlagsImpl.exported.java.template"))
    } else if context.use_device_config {
        Ok(String::from_str("FeatureFlagsImpl.legacy_flag.internal.java.template"))
    } else {
        Ok(String::from_str("FeatureFlagsImpl.new_storage.java.template"))
    }
}

/// A generated file and the template it is rendered from.
pub open spec fn file_template(file: Seq<char>) -> (Seq<char>, Seq<char>) {
    (file, file + ".template"@)
}

/// The generated files with their templates, in the order they are added:
/// unless the read-only optimization leaves only Flags.java, first
/// ExportedFlags.java for a single exported file, else CustomFeatureFlags.java
/// and FakeFeatureFlagsImpl.java; then FeatureFlagsImpl.java with its
/// chosen template, and FeatureFlags.java; last Flags.java.
pub open spec fn spec_java_templates(ctx: JavaContext) -> Result<
    Seq<(Seq<char>, Seq<char>)>,
    Seq<char>,
> {
    let flags_java = seq![file_template("Flags.java"@)];
    if ctx.is_read_only_optimized {
        Ok(flags_java)
    } else {
        let first = if ctx.library_exported && ctx.single_exported_file {
            seq![file_template("ExportedFlags.java"@)]
        } else {
            seq![
                file_template("CustomFeatureFlags.java"@),
                file_template("FakeFeatureFlagsImpl.java"@),
            ]
        };
        match spec_feature_flags_impl_template(ctx) {
            Err(e) => Err(e),
            Ok(t) => Ok(
                first + seq![("FeatureFlagsImpl.java"@, t), file_template("FeatureFlags.java"@)]
                    + flags_java,
            ),
        }
    }
}

/// Appends a generated file with its template.
fn push_file_template(out: &mut Vec<(String, String)>, file: &str)
    ensures
        pairs_view(final(out)@) == pairs_view(old(out)@).push(file_template(file@)),
{
    let mut template = String::from_str(file);
    template.append(".template");
    out.push((String::from_str(file), template));
    assert(pairs_view(out@) =~= pairs_view(old(out)@).push(file_template(file@)));
}

/// The generated files with the templates they are rendered from, or the
/// error of choosing the FeatureFlagsImpl.java template.
pub fn java_templates(context: &JavaContext) -> (res: Result<Vec<(String, String)>, String>)
    ensures
        match (res, spec_java_templates(*context)) {
            (Ok(v), Ok(w)) => pairs_view(v@) == w,
            (Err(e), Err(m)) => e@ == m,
            _ => false,
        },
{
    let mut out: Vec<(String, String)> = Vec::new();
    if !context.is_read_only_optimized {
        if context.library_exported && context.single_exported_file {
            push_file_template(&mut out, "ExportedFlags.java");
        } else {
            push_file_template(&mut out, "CustomFeatureFlags.java");
            push_file_template(&mut out, "FakeFeatureFlagsImpl.java");
        }
        let template = match add_feature_flags_impl_template(context) {
            Ok(t) => t,
            Err(e) => return Err(e),
        };
        let ghost before = pairs_view(out@);
        out.push((String::from_str("FeatureFlagsImpl.java"), template));
        assert(pairs_view(out@) =~= before.push(("FeatureFlagsImpl.java"@, template@)));
        push_file_template(&mut out, "FeatureFlags.java");
    }
    push_file_template(&mut out, "Flags.java");
    assert(pairs_view(out@) =~= match spec_java_templates(*context) {
        Ok(w) => w,
        Err(_) => Seq::empty(),
    });
    Ok(out)
}

/// The files that generation writes, in order: Flags.java and, unless the
/// read-only optimization applies, FeatureFlags.java, FeatureFlagsImpl.java,
/// then ExportedFlags.java for a single exported file, else
/// CustomFeatureFlags.java and FakeFeatureFlagsImpl.java.
pub open spec fn spec_java_output_files(ctx: JavaContext) -> Seq<Seq<char>> {
    if ctx.is_read_only_optimized {
        seq!["Flags.java"@]
    } else if ctx.library_exported && ctx.single_exported_file {
        seq!["Flags.java"@, "FeatureFlags.java"@, "FeatureFlagsImpl.java"@, "ExportedFlags.java"@]
    } else {
        seq![
            "Flags.java"@,
            "FeatureFlags.java"@,
            "FeatureFlagsImpl.java"@,
            "CustomFeatureFlags.java"@,
            "FakeFeatureFlagsImpl.java"@,
        ]
    }
}

/// The files that generation writes, in order.
pub fn java_output_files(context: &JavaContext) -> (res: Vec<String>)
    ensures
        strings_view(res@) == spec_java_output_files(*context),
{
    let mut files: Vec<String> = Vec::new();
    files.push(String::from_str("Flags.java"));
    if !context.is_read_only_optimized {
        files.push(String::from_str("FeatureFlags.java"));
        files.push(String::from_str("FeatureFlagsImpl.java"));
        if context.library_exported && context.single_exported_file {
            files.push(String::from_str("ExportedFlags.java"));
        } else {
            files.push(String::from_str("CustomFeatureFlags.java"));
            files.push(String::from_str("FakeFeatureFlagsImpl.java"));
        }
    }
    assert(strings_view(files@) =~= spec_java_output_files(*context));
    files
}

/// The path of the pieces pushed in order onto an empty path.
pub open spec fn path_of(pieces: Seq<Seq<char>>) -> Seq<char>
    decreases pieces.len(),
{
    if pieces.len() == 0 {
        Seq::empty()
    } else {
        path_push(path_of(pieces.drop_last()), pieces.last())
    }
}

/// The path of a generated file: the package's dot-separated parts as
/// directories, then the file.
pub open spec fn java_file_path(package: Seq<char>, file: Seq<char>) -> Seq<char> {
    path_push(path_of(split_on(package, '.')), file)
}

/// The path of a generated file of the package.
pub fn java_file_path_of(package: &str, file: &str) -> (res: String)
    ensures
        res@ == java_file_path(package@, file@),
{
    let pieces = split_chars(&chars_of(package), '.');
    let mut buf: Vec<char> = Vec::new();
    let mut i: usize = 0;
    let ghost all = split_on(package@, '.');
    assert(all.take(0) =~= Seq::<Seq<char>>::empty());
    while i < pieces.len()
        invariant
            i <= pieces@.len(),
            pieces@.len() == all.len(),
            forall|k: int| 0 <= k < pieces@.len() ==> #[trigger] pieces@[k]@ == all[k],
            buf@ == path_of(all.take(i as int)),
        decreases pieces@.len() - i,
    {
        push_path(&mut buf, &pieces[i]);
        assert(all.take(i + 1).drop_last() =~= all.take(i as int));
        i = i + 1;
    }
    assert(all.take(all.len() as int) =~= all);
    push_path(&mut buf, &chars_of(file));
    string_from_chars(&buf)
}

/// A sequence all of whose items satisfy `pred` filters to itself.
proof fn lemma_filter_all<A>(s: Seq<A>, pred: spec_fn(A) -> bool)
    requires
        forall|i: int| 0 <= i < s.len() ==> pred(#[trigger] s[i]),
    ensures
        s.filter(pred) == s,
    decreases s.len(),
{
    reveal(Seq::filter);
    if s.len() > 0 {
        lemma_filter_all(s.drop_last(), pred);
        assert(pred(s[s.len() - 1]));
        assert(s.drop_last().push(s.last()) =~= s);
    }
}

/// What a filter keeps comes from the filtered sequence.
proof fn lemma_filter_subset<A>(s: Seq<A>, pred: spec_fn(A) -> bool, x: A)
    requires
        s.filter(pred).contains(x),
    ensures
        s.contains(x),
    decreases s.len(),
{
    reveal(Seq::filter);
    if s.len() > 0 {
        let sub = s.drop_last().filter(pred);
        if sub.contains(x) {
            lemma_filter_subset(s.drop_last(), pred, x);
            let k = choose|k: int| 0 <= k < s.drop_last().len() && s.drop_last()[k] == x;
            assert(s[k] == x);
        } else {
            let f = s.filter(pred);
            let k = choose|k: int| 0 <= k < f.len() && f[k] == x;
            if pred(s.last()) {
                if k < sub.len() {
                    assert(sub[k] == x);
                }
                assert(s[s.len() - 1] == x);
            } else {
                assert(sub[k] == x);
            }
        }
    }
}

/// Which flags the FeatureFlags API keeps: all of them where the impl
/// interface is preserved or read-only getters are not optimized; where
/// both allow it, exactly the read-write ones, in their order.
pub proof fn lemma_overridable_flags(
    ctx: JavaContext,
    package: Seq<char>,
    flags: Seq<ParsedFlag>,
    lookups: Seq<Result<FlagLookup, String>>,
    config: JavaCodegenConfig,
)
    requires
        is_java_context(ctx, package, flags, lookups, config),
    ensures
        !config.allow_impl_interface_removal || !config.optimize_read_only_getter
            ==> ctx.overridable_flag_elements@ == ctx.flag_elements@,
        config.allow_impl_interface_removal && config.optimize_read_only_getter ==> forall|
            e: FlagElement,
        |
            #![trigger ctx.overridable_flag_elements@.contains(e)]
            ctx.overridable_flag_elements@.contains(e) <==> (ctx.flag_elements@.contains(e)
                && e.is_read_write),
{
    let elements = ctx.flag_elements@;
    let pred = overridable(config);
    if !config.allow_impl_interface_removal || !config.optimize_read_only_getter {
        lemma_filter_all(elements, pred);
    } else {
        assert forall|e: FlagElement|
            ctx.overridable_flag_elements@.contains(e) <==> (elements.contains(e)
                && e.is_read_write) by {
            let kept = elements.filter(pred);
            if kept.contains(e) {
                let m = choose|m: int| 0 <= m < kept.len() && kept[m] == e;
                elements.lemma_filter_pred(pred, m);
                lemma_filter_subset(elements, pred, e);
            }
            if elements.contains(e) && e.is_read_write {
                let k = choose|k: int| 0 <= k < elements.len() && elements[k] == e;
                elements.lemma_filter_contains(pred, k);
            }
        }
    }
}

/// Every container of the platform (system, system_ext, product, vendor),
/// and no other, makes a platform container.
pub proof fn lemma_platform_containers(
    ctx: JavaContext,
    package: Seq<char>,
    flags: Seq<ParsedFlag>,
    lookups: Seq<Result<FlagLookup, String>>,
    config: JavaCodegenConfig,
)
    requires
        is_java_context(ctx, package, flags, lookups, config),
    ensures
        ctx.is_platform_container <==> (ctx.container@ == "system"@ || ctx.container@
            == "system_ext"@ || ctx.container@ == "product"@ || ctx.container@ == "vendor"@),
{
}

/// In test mode FeatureFlagsImpl.java is rendered from the test-mode
/// template, whatever the flags' storage; choosing the template fails only
/// for an exported library whose flags use device config.
pub proof fn lemma_feature_flags_impl_template_choice(
    ctx: JavaContext,
    package: Seq<char>,
    flags: Seq<ParsedFlag>,
    lookups: Seq<Result<FlagLookup, String>>,
    config: JavaCodegenConfig,
)
    requires
        is_java_context(ctx, package, flags, lookups, config),
    ensures
        config.codegen_mode == CodegenMode::Test ==> spec_feature_flags_impl_template(ctx) == Ok::<
            Seq<char>,
            Seq<char>,
        >("FeatureFlagsImpl.test_mode.java.template"@),
        spec_feature_flags_impl_template(ctx) is Err <==> (config.codegen_mode
            == CodegenMode::Exported && exists|i: int|
            0 <= i < flags.len() && (#[trigger] flags[i]).storage
                == FlagStorageBackend::DeviceConfig),
{
}

/// The files that generation writes are the files whose templates it
/// registers; ExportedFlags.java is among them exactly for an exported
/// library with a single exported file, and CustomFeatureFlags.java and
/// FakeFeatureFlagsImpl.java exactly otherwise, unless the read-only
/// optimization leaves Flags.java alone.
pub proof fn lemma_output_files(ctx: JavaContext)
    ensures
        spec_java_output_files(ctx).contains("Flags.java"@),
        spec_java_output_files(ctx).contains("ExportedFlags.java"@) <==> (!ctx.is_read_only_optimized
            && ctx.library_exported && ctx.single_exported_file),
        spec_java_output_files(ctx).contains("CustomFeatureFlags.java"@) <==> (
        !ctx.is_read_only_optimized && !(ctx.library_exported && ctx.single_exported_file)),
        spec_java_output_files(ctx).contains("FakeFeatureFlagsImpl.java"@) <==> (
        !ctx.is_read_only_optimized && !(ctx.library_exported && ctx.single_exported_file)),
        spec_java_templates(ctx) matches Ok(w) ==> forall|f: Seq<char>|
            #![trigger spec_java_output_files(ctx).contains(f)]
            w.map_values(|p: (Seq<char>, Seq<char>)| p.0).contains(f) <==> spec_java_output_files(
                ctx,
            ).contains(f),
{
    reveal_strlit("Flags.java");
    reveal_strlit("FeatureFlags.java");
    reveal_strlit("FeatureFlagsImpl.java");
    reveal_strlit("ExportedFlags.java");
    reveal_strlit("CustomFeatureFlags.java");
    reveal_strlit("FakeFeatureFlagsImpl.java");
    let files = spec_java_output_files(ctx);
    let flags_java = "Flags.java"@;
    let exported = "ExportedFlags.java"@;
    let custom = "CustomFeatureFlags.java"@;
    let fake = "FakeFeatureFlagsImpl.java"@;
    assert(files[0] == flags_java);
    assert(files.contains(exported) ==> !ctx.is_read_only_optimized && ctx.library_exported
        && ctx.single_exported_file) by {
        if files.contains(exported) {
            let k = choose|k: int| 0 <= k < files.len() && files[k] == exported;
            assert(files[k].len() == exported.len());
        }
    }
    assert(files.contains(custom) ==> !ctx.is_read_only_optimized && !(ctx.library_exported
        && ctx.single_exported_file)) by {
        if files.contains(custom) {
            let k = choose|k: int| 0 <= k < files.len() && files[k] == custom;
            assert(files[k].len() == custom.len());
        }
    }
    assert(files.contains(fake) ==> !ctx.is_read_only_optimized && !(ctx.library_exported
        && ctx.single_exported_file)) by {
        if files.contains(fake) {
            let k = choose|k: int| 0 <= k < files.len() && files[k] == fake;
            assert(files[k].len() == fake.len());
        }
    }
    if !ctx.is_read_only_optimized {
        if ctx.library_exported && ctx.single_exported_file {
            assert(files[3] == exported);
        } else {
            assert(files[3] == custom);
            assert(files[4] == fake);
        }
    }
    if let Ok(w) = spec_java_templates(ctx) {
        let names = w.map_values(|p: (Seq<char>, Seq<char>)| p.0);
        let impl_template = match spec_feature_flags_impl_template(ctx) {
            Ok(t) => t,
            Err(_) => Seq::empty(),
        };
        if ctx.is_read_only_optimized {
            assert(names =~= files);
        } else if ctx.library_exported && ctx.single_exported_file {
            assert(names =~= seq![
                exported,
                "FeatureFlagsImpl.java"@,
                "FeatureFlags.java"@,
                flags_java,
            ]);
            assert forall|f: Seq<char>| names.contains(f) <==> files.contains(f) by {
                if names.contains(f) {
                    let k = choose|k: int| 0 <= k < names.len() && names[k] == f;
                    if k == 0 { assert(files[3] == f); }
                    else if k == 1 { assert(files[2] == f); }
                    else if k == 2 { assert(files[1] == f); }
                    else { assert(files[0] == f); }
                }
                if files.contains(f) {
                    let k = choose|k: int| 0 <= k < files.len() && files[k] == f;
                    if k == 0 { assert(names[3] == f); }
                    else if k == 1 { assert(names[2] == f); }
                    else if k == 2 { assert(names[1] == f); }
                    else { assert(names[0] == f); }
                }
            }
        } else {
            assert(names =~= seq![
                custom,
                fake,
                "FeatureFlagsImpl.java"@,
                "FeatureFlags.java"@,
                flags_java,
            ]);
            assert forall|f: Seq<char>| names.contains(f) <==> files.contains(f) by {
                if names.contains(f) {
                    let k = choose|k: int| 0 <= k < names.len() && names[k] == f;
                    if k == 0 { assert(files[3] == f); }
                    else if k == 1 { assert(files[4] == f); }
                    else if k == 2 { assert(files[2] == f); }
                    else if k == 3 { assert(files[1] == f); }
                    else { assert(files[0] == f); }
                }
                if files.contains(f) {
                    let k = choose|k: int| 0 <= k < files.len() && files[k] == f;
                    if k == 0 { assert(names[4] == f); }
                    else if k == 1 { assert(names[3] == f); }
                    else if k == 2 { assert(names[2] == f); }
                    else if k == 3 { assert(names[0] == f); }
                    else { assert(names[1] == f); }
                }
            }
        }
    }
}

} // verus!
