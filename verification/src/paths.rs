//! Paths as `std::path::PathBuf` builds them on Unix: pushing a relative
//! piece appends it after a separator, pushing an absolute one replaces the
//! path.

use vstd::prelude::*;

use crate::text::{chars_of, push_chars, string_from_chars};

verus! {

/// A path with `p` pushed onto it: an absolute `p` replaces it; otherwise
/// `p` follows it, after a `/` unless it is empty or ends with one.
pub open spec fn path_push(buf: Seq<char>, p: Seq<char>) -> Seq<char> {
    if p.len() > 0 && p[0] == '/' {
        p
    } else if buf.len() > 0 && buf.last() != '/' {
        buf + seq!['/'] + p
    } else {
        buf + p
    }
}

/// Pushes `p` onto the path `buf`.
pub fn push_path(buf: &mut Vec<char>, p: &Vec<char>)
    ensures
        final(buf)@ == path_push(old(buf)@, p@),
{
    if p.len() > 0 && p[0] == '/' {
        buf.clear();
        push_chars(buf, p);
        assert(buf@ =~= p@);
    } else {
        if buf.len() > 0 && buf[buf.len() - 1] != '/' {
            buf.push('/');
        }
        push_chars(buf, p);
    }
}

/// `base` joined with `p`, as `Path::join` gives it.
pub fn join_path(base: &str, p: &str) -> (res: String)
    ensures
        res@ == path_push(base@, p@),
{
    let mut buf = chars_of(base);
    push_path(&mut buf, &chars_of(p));
    string_from_chars(&buf)
}

} // verus!
