//! Java identifiers derived from aconfig names: flag names in snake case
//! become camel-case method names, and namespaces become property field names.

use vstd::prelude::*;

use crate::text::{chars_of, string_from_chars};

verus! {

/// ASCII lower case of a character; other characters are unchanged.
pub open spec fn ascii_lower(c: char) -> char {
    if 'A' <= c && c <= 'Z' {
        ((c as u32) + 32) as char
    } else {
        c
    }
}

/// ASCII upper case of a character; other characters are unchanged.
pub open spec fn ascii_upper(c: char) -> char {
    if 'a' <= c && c <= 'z' {
        ((c as u32) - 32) as char
    } else {
        c
    }
}

/// ASCII lower case of every character.
pub open spec fn lower_all(s: Seq<char>) -> Seq<char> {
    s.map_values(|c: char| ascii_lower(c))
}

/// A character that UTF-8 encodes in one byte.
pub open spec fn is_ascii_char(c: char) -> bool {
    (c as u32) < 128
}

/// Scanning a name from the left: the words completed so far and the word
/// in progress. An underscore ends the word in progress, if any.
pub open spec fn scan_words(s: Seq<char>) -> (Seq<Seq<char>>, Seq<char>)
    decreases s.len(),
{
    if s.len() == 0 {
        (Seq::empty(), Seq::empty())
    } else {
        let (done, cur) = scan_words(s.drop_last());
        if s.last() == '_' {
            if cur.len() > 0 {
                (done.push(cur), Seq::empty())
            } else {
                (done, Seq::empty())
            }
        } else {
            (done, cur.push(s.last()))
        }
    }
}

/// The non-empty pieces of a name between underscores, in order.
pub open spec fn words(s: Seq<char>) -> Seq<Seq<char>> {
    let (done, cur) = scan_words(s);
    if cur.len() > 0 {
        done.push(cur)
    } else {
        done
    }
}

/// The word at position `i` of a camel-case name: the first word in lower
/// case, every later one with its first character in upper case and the
/// rest in lower case.
pub open spec fn camel_word(w: Seq<char>, i: int) -> Seq<char> {
    if i == 0 {
        lower_all(w)
    } else {
        seq![ascii_upper(w[0])] + lower_all(w.skip(1))
    }
}

/// The camel-case words joined.
pub open spec fn join_camel(ws: Seq<Seq<char>>) -> Seq<char>
    decreases ws.len(),
{
    if ws.len() == 0 {
        Seq::empty()
    } else {
        join_camel(ws.drop_last()) + camel_word(ws.last(), ws.len() - 1)
    }
}

/// The Java method name of a flag name: a name of one word keeps it with
/// its first character in lower case; a name of several words becomes camel
/// case.
pub open spec fn java_method_name(s: Seq<char>) -> Seq<char> {
    let ws = words(s);
    if ws.len() == 1 {
        seq![ascii_lower(ws[0][0])] + ws[0].skip(1)
    } else {
        join_camel(ws)
    }
}

/// Every word is non-empty.
pub proof fn lemma_words_nonempty(s: Seq<char>)
    ensures
        forall|i: int| 0 <= i < words(s).len() ==> (#[trigger] words(s)[i]).len() > 0,
        forall|i: int|
            0 <= i < scan_words(s).0.len() ==> (#[trigger] scan_words(s).0[i]).len() > 0,
    decreases s.len(),
{
    if s.len() > 0 {
        lemma_words_nonempty(s.drop_last());
        let (done, cur) = scan_words(s.drop_last());
        assert forall|i: int| 0 <= i < scan_words(s).0.len() implies (
        #[trigger] scan_words(s).0[i]).len() > 0 by {
            if i < done.len() {
                assert(scan_words(s).0[i] == done[i]);
            }
        }
    }
    let (done, cur) = scan_words(s);
    assert forall|i: int| 0 <= i < words(s).len() implies (#[trigger] words(s)[i]).len() > 0 by {
        if i < done.len() {
            assert(words(s)[i] == done[i]);
        }
    }
}

/// The words whose first character the method name re-cases by byte
/// position start with a one-byte character (else the formatter panics).
pub open spec fn method_name_formattable(s: Seq<char>) -> bool {
    let ws = words(s);
    forall|i: int| 0 <= i < ws.len() && (ws.len() == 1 || i > 0) ==> is_ascii_char(#[trigger] ws[i][0])
}

/// The property field name of a namespace: "mProperties", then the
/// namespace's method name with its first character in upper case.
pub open spec fn java_property_name(s: Seq<char>) -> Seq<char> {
    let name = java_method_name(s);
    "mProperties"@ + seq![ascii_upper(name[0])] + name.skip(1)
}

/// The property name can be formed: the method name is formattable, not
/// empty, and starts with a one-byte character.
pub open spec fn property_name_formattable(s: Seq<char>) -> bool {
    &&& method_name_formattable(s)
    &&& java_method_name(s).len() > 0
    &&& is_ascii_char(java_method_name(s)[0])
}

fn to_lower(c: char) -> (r: char)
    ensures
        r == ascii_lower(c),
{
    if 'A' <= c && c <= 'Z' {
        ((c as u8) + 32) as char
    } else {
        c
    }
}

pub(crate) fn to_upper(c: char) -> (r: char)
    ensures
        r == ascii_upper(c),
{
    if 'a' <= c && c <= 'z' {
        ((c as u8) - 32) as char
    } else {
        c
    }
}

/// Splits a name at underscores, dropping empty pieces.
fn split_words(s: &Vec<char>) -> (res: Vec<Vec<char>>)
    ensures
        res@.len() == words(s@).len(),
        forall|i: int| 0 <= i < res@.len() ==> #[trigger] res@[i]@ == words(s@)[i],
{
    let mut done: Vec<Vec<char>> = Vec::new();
    let mut cur: Vec<char> = Vec::new();
    let mut i: usize = 0;
    while i < s.len()
        invariant
            i <= s@.len(),
            done@.len() == scan_words(s@.take(i as int)).0.len(),
            forall|k: int| 0 <= k < done@.len() ==> #[trigger] done@[k]@ == scan_words(
                s@.take(i as int),
            ).0[k],
            cur@ == scan_words(s@.take(i as int)).1,
        decreases s@.len() - i,
    {
        let c = s[i];
        assert(s@.take(i + 1).drop_last() == s@.take(i as int));
        if c == '_' {
            if cur.len() > 0 {
                done.push(cur);
                cur = Vec::new();
            }
        } else {
            cur.push(c);
        }
        i = i + 1;
    }
    assert(s@.take(s@.len() as int) == s@);
    if cur.len() > 0 {
        done.push(cur);
    }
    done
}

/// Appends the lower case of every character of `w` from position `start`.
fn push_lower_from(out: &mut Vec<char>, w: &Vec<char>, start: usize)
    requires
        start <= w@.len(),
    ensures
        final(out)@ == old(out)@ + lower_all(w@.skip(start as int)),
{
    let mut j = start;
    while j < w.len()
        invariant
            start <= j <= w@.len(),
            out@ == old(out)@ + lower_all(w@.subrange(start as int, j as int)),
        decreases w@.len() - j,
    {
        out.push(to_lower(w[j]));
        j = j + 1;
        assert(lower_all(w@.subrange(start as int, j as int)) == lower_all(
            w@.subrange(start as int, j - 1),
        ).push(ascii_lower(w@[j - 1])));
    }
    assert(w@.subrange(start as int, w@.len() as int) == w@.skip(start as int));
}

/// Formats a snake-case flag name as a Java method name.
pub fn format_java_method_name(flag_name: &str) -> (res: String)
    requires
        method_name_formattable(flag_name@),
    ensures
        res@ == java_method_name(flag_name@),
{
    let chars = chars_of(flag_name);
    let splits = split_words(&chars);
    let ghost ws = words(flag_name@);
    proof {
        lemma_words_nonempty(flag_name@);
    }
    let mut out: Vec<char> = Vec::new();
    if splits.len() == 1 {
        let name = &splits[0];
        assert(name@ == ws[0]);
        out.push(to_lower(name[0]));
        let mut j: usize = 1;
        while j < name.len()
            invariant
                1 <= j <= name@.len(),
                out@ == seq![ascii_lower(name@[0])] + name@.subrange(1, j as int),
            decreases name@.len() - j,
        {
            out.push(name[j]);
            j = j + 1;
        }
        assert(name@.subrange(1, name@.len() as int) == name@.skip(1));
    } else {
        let mut index: usize = 0;
        while index < splits.len()
            invariant
                splits@.len() == ws.len(),
                ws.len() != 1,
                forall|i: int| 0 <= i < splits@.len() ==> #[trigger] splits@[i]@ == ws[i],
                forall|i: int| 0 <= i < ws.len() ==> (#[trigger] ws[i]).len() > 0,
                index <= splits@.len(),
                out@ == join_camel(ws.take(index as int)),
            decreases splits@.len() - index,
        {
            let word = &splits[index];
            assert(word@ == ws[index as int]);
            if index == 0 {
                push_lower_from(&mut out, word, 0);
                assert(word@.skip(0) == word@);
            } else {
                out.push(to_upper(word[0]));
                push_lower_from(&mut out, word, 1);
            }
            assert(ws.take(index + 1).drop_last() == ws.take(index as int));
            index = index + 1;
        }
        assert(ws.take(ws.len() as int) == ws);
    }
    string_from_chars(&out)
}

/// Formats a namespace as the name of its properties field.
pub fn format_property_name(property_name: &str) -> (res: String)
    requires
        property_name_formattable(property_name@),
    ensures
        res@ == java_property_name(property_name@),
{
    let name = format_java_method_name(property_name);
    let chars = chars_of(name.as_str());
    let mut out = chars_of("mProperties");
    out.push(to_upper(chars[0]));
    let mut j: usize = 1;
    while j < chars.len()
        invariant
            1 <= j <= chars@.len(),
            out@ == "mProperties"@ + seq![ascii_upper(chars@[0])] + chars@.subrange(1, j as int),
        decreases chars@.len() - j,
    {
        out.push(chars[j]);
        j = j + 1;
    }
    assert(chars@.subrange(1, chars@.len() as int) == chars@.skip(1));
    string_from_chars(&out)
}

/// No character of the text is an underscore.
pub open spec fn no_underscore(t: Seq<char>) -> bool {
    forall|j: int| 0 <= j < t.len() ==> #[trigger] t[j] != '_'
}

/// The words of a name hold no underscore.
proof fn lemma_words_no_underscore(s: Seq<char>)
    ensures
        forall|i: int| 0 <= i < words(s).len() ==> no_underscore(#[trigger] words(s)[i]),
        forall|i: int| 0 <= i < scan_words(s).0.len() ==> no_underscore(#[trigger] scan_words(s).0[i]),
        no_underscore(scan_words(s).1),
    decreases s.len(),
{
    if s.len() > 0 {
        lemma_words_no_underscore(s.drop_last());
        let (done, cur) = scan_words(s.drop_last());
        assert forall|i: int| 0 <= i < scan_words(s).0.len() implies no_underscore(
            #[trigger] scan_words(s).0[i],
        ) by {
            if i < done.len() {
                assert(scan_words(s).0[i] == done[i]);
            }
        }
        if s.last() != '_' {
            assert(no_underscore(cur.push(s.last())));
        }
    }
    let (done, cur) = scan_words(s);
    assert forall|i: int| 0 <= i < words(s).len() implies no_underscore(#[trigger] words(s)[i]) by {
        if i < done.len() {
            assert(words(s)[i] == done[i]);
        }
    }
}

/// A non-empty text without underscores is one word.
proof fn lemma_words_of_plain(t: Seq<char>)
    requires
        no_underscore(t),
    ensures
        scan_words(t) == (Seq::<Seq<char>>::empty(), t),
        t.len() > 0 ==> words(t) == seq![t],
    decreases t.len(),
{
    if t.len() > 0 {
        lemma_words_of_plain(t.drop_last());
        assert(t.last() != '_');
        assert(t.drop_last().push(t.last()) =~= t);
    } else {
        assert(t =~= Seq::<char>::empty());
    }
}

/// Lower case is idempotent.
proof fn lemma_ascii_lower_idempotent(c: char)
    ensures
        ascii_lower(ascii_lower(c)) == ascii_lower(c),
        c != '_' ==> ascii_lower(c) != '_',
{
    if 'A' <= c && c <= 'Z' {
        assert('a' <= ascii_lower(c) && ascii_lower(c) <= 'z');
    }
}

/// Upper case keeps characters other than the underscore apart from it.
proof fn lemma_ascii_upper_not_underscore(c: char)
    ensures
        c != '_' ==> ascii_upper(c) != '_',
{
    if 'a' <= c && c <= 'z' {
        assert('A' <= ascii_upper(c) && ascii_upper(c) <= 'Z');
    }
}

/// Camel case of words without underscores has none, and starts with the
/// lower case of the first word's first character.
proof fn lemma_join_camel_plain(ws: Seq<Seq<char>>)
    requires
        forall|i: int| 0 <= i < ws.len() ==> no_underscore(#[trigger] ws[i]) && ws[i].len() > 0,
    ensures
        no_underscore(join_camel(ws)),
        ws.len() > 0 ==> join_camel(ws).len() > 0 && join_camel(ws)[0] == ascii_lower(ws[0][0]),
    decreases ws.len(),
{
    if ws.len() > 0 {
        lemma_join_camel_plain(ws.drop_last());
        let w = ws.last();
        let n = ws.len() - 1;
        assert(no_underscore(w));
        assert forall|j: int| 0 <= j < w.len() implies #[trigger] lower_all(w)[j] != '_' by {
            lemma_ascii_lower_idempotent(w[j]);
        }
        if n > 0 {
            lemma_ascii_upper_not_underscore(w[0]);
            assert forall|j: int| 0 <= j < w.skip(1).len() implies #[trigger] lower_all(w.skip(1))[j]
                != '_' by {
                lemma_ascii_lower_idempotent(w.skip(1)[j]);
            }
            assert(no_underscore(camel_word(w, n)));
        } else {
            assert(no_underscore(camel_word(w, n)));
            assert(ws.drop_last() =~= Seq::<Seq<char>>::empty());
        }
        assert(no_underscore(join_camel(ws)));
    }
}

/// Formatting a Java method name again gives it back: a method name is its
/// own method name.
pub proof fn lemma_java_method_name_idempotent(s: Seq<char>)
    ensures
        java_method_name(java_method_name(s)) == java_method_name(s),
{
    let ws = words(s);
    let r = java_method_name(s);
    lemma_words_no_underscore(s);
    lemma_words_nonempty(s);
    if ws.len() == 1 {
        let w = ws[0];
        lemma_ascii_lower_idempotent(w[0]);
        assert(no_underscore(r));
    } else {
        lemma_join_camel_plain(ws);
        if ws.len() > 0 {
            lemma_ascii_lower_idempotent(ws[0][0]);
        }
    }
    lemma_words_of_plain(r);
    if r.len() > 0 {
        assert(words(r) == seq![r]);
        assert(seq![ascii_lower(r[0])] + r.skip(1) =~= r);
    } else {
        assert(words(r) =~= Seq::<Seq<char>>::empty());
        assert(join_camel(Seq::<Seq<char>>::empty()) =~= r);
    }
}

} // verus!
