//! SDK versions of the form `major` or `major.minor`, ordered by major, then
//! minor version.

use vstd::prelude::*;
use vstd::string::*;

use crate::text::{
    chars_of, decimal, lemma_decimal_digits, lemma_parse_decimal, parse_u32_range, parse_u32_spec,
    push_char, push_decimal,
};

verus! {

#[derive(Debug, Clone, Copy, PartialEq, Eq, PartialOrd, Ord)]
pub struct SdkVersion {
    // The order of the fields is significant for the derived implementation of Ord
    pub major: u32,
    pub minor: u32,
}

/// The position of the first `.`, if any.
pub open spec fn first_dot(s: Seq<char>) -> Option<int> {
    s.index_of_first('.')
}

/// Parsing an SDK version: with a `.`, the text before the first one is the
/// major version and the text after it the minor version; without, the whole
/// text is the major version and the minor version is 0. Each part is parsed
/// as `str::parse::<u32>` does.
pub open spec fn parse_sdk_version(s: Seq<char>) -> Option<(u32, u32)> {
    match first_dot(s) {
        Some(i) => match (parse_u32_spec(s.take(i)), parse_u32_spec(s.skip(i + 1))) {
            (Some(major), Some(minor)) => Some((major, minor)),
            _ => None,
        },
        None => match parse_u32_spec(s) {
            Some(major) => Some((major, 0u32)),
            None => None,
        },
    }
}

/// Message of the error for text that is no SDK version.
pub open spec fn sdk_version_error_msg(s: Seq<char>) -> Seq<char> {
    "failed to convert '"@ + s + "' to SdkVersion"@
}

/// The text of a version: major and minor version in decimal, joined by `.`.
pub open spec fn sdk_version_text(v: SdkVersion) -> Seq<char> {
    decimal(v.major as nat) + seq!['.'] + decimal(v.minor as nat)
}

impl SdkVersion {
    /// Parses an SDK version (see [`parse_sdk_version`]).
    pub fn parse(s: &str) -> (res: Result<SdkVersion, String>)
        ensures
            match parse_sdk_version(s@) {
                Some((major, minor)) => res == Ok::<SdkVersion, String>(SdkVersion { major, minor }),
                None => res matches Err(e) && e@ == sdk_version_error_msg(s@),
            },
    {
        let chars = chars_of(s);
        let mut dot: usize = 0;
        while dot < chars.len() && chars[dot] != '.'
            invariant
                dot <= chars@.len(),
                chars@ == s@,
                forall|j: int| 0 <= j < dot ==> chars@[j] != '.',
            decreases chars@.len() - dot,
        {
            dot = dot + 1;
        }
        proof {
            s@.index_of_first_ensures('.');
            if dot < chars@.len() {
                assert(s@.contains('.'));
            }
        }
        let parsed = if dot < chars.len() {
            assert(chars@.subrange(0, dot as int) == s@.take(dot as int));
            assert(chars@.subrange(dot + 1, chars@.len() as int) == s@.skip(dot + 1));
            match (parse_u32_range(&chars, 0, dot), parse_u32_range(&chars, dot + 1, chars.len())) {
                (Some(major), Some(minor)) => Some(SdkVersion { major, minor }),
                _ => None,
            }
        } else {
            assert(chars@.subrange(0, chars@.len() as int) == s@);
            match parse_u32_range(&chars, 0, chars.len()) {
                Some(major) => Some(SdkVersion { major, minor: 0 }),
                None => None,
            }
        };
        match parsed {
            Some(v) => Ok(v),
            None => {
                let mut msg = String::from_str("failed to convert '");
                msg.append(s);
                msg.append("' to SdkVersion");
                Err(msg)
            },
        }
    }

    /// The text of the version: `major.minor`.
    pub fn to_string(&self) -> (res: String)
        ensures
            res@ == sdk_version_text(*self),
    {
        let mut s = String::new();
        push_decimal(&mut s, self.major as u64);
        push_char(&mut s, '.');
        push_decimal(&mut s, self.minor as u64);
        s
    }
}

impl std::str::FromStr for SdkVersion {
    type Err = String;

    /// Parses an SDK version (see [`parse_sdk_version`]).
    fn from_str(s: &str) -> (res: Result<Self, Self::Err>)
        ensures
            match parse_sdk_version(s@) {
                Some((major, minor)) => res == Ok::<SdkVersion, String>(SdkVersion { major, minor }),
                None => res matches Err(e) && e@ == sdk_version_error_msg(s@),
            },
    {
        SdkVersion::parse(s)
    }
}

/// The text of a version parses back to the version.
pub proof fn lemma_sdk_version_text_round_trip(v: SdkVersion)
    ensures
        parse_sdk_version(sdk_version_text(v)) == Some((v.major, v.minor)),
{
    let a = decimal(v.major as nat);
    let b = decimal(v.minor as nat);
    let t = sdk_version_text(v);
    lemma_decimal_digits(v.major as nat);
    lemma_decimal_digits(v.minor as nat);
    lemma_parse_decimal(v.major);
    lemma_parse_decimal(v.minor);
    t.index_of_first_ensures('.');
    assert(t[a.len() as int] == '.');
    assert forall|j: int| 0 <= j < a.len() implies t[j] != '.' by {
        assert(t[j] == a[j]);
        assert(crate::text::is_digit(a[j]));
    }
    assert(t.contains('.'));
    assert(t.take(a.len() as int) == a);
    assert(t.skip(a.len() + 1int) == b);
}

} // verus!
