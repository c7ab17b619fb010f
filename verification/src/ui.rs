//! Header helpers for the rendered view: how the repository path is
//! abbreviated for display.

use vstd::prelude::*;

verus! {

/// How many bytes one character occupies when UTF-8 encoded.
pub open spec fn char_utf8_width(c: char) -> int {
    if (c as int) < 0x80 {
        1
    } else if (c as int) < 0x800 {
        2
    } else if (c as int) < 0x10000 {
        3
    } else {
        4
    }
}

/// The string's length in bytes when UTF-8 encoded, which is what `str`
/// reports as its length.
pub open spec fn spec_utf8_len(s: Seq<char>) -> int
    decreases s.len(),
{
    if s.len() == 0 {
        0
    } else {
        spec_utf8_len(s.drop_last()) + char_utf8_width(s.last())
    }
}

proof fn lemma_utf8_len_prefix_step(s: Seq<char>, i: int)
    requires
        0 <= i < s.len(),
    ensures
        spec_utf8_len(s.subrange(0, i + 1)) == spec_utf8_len(s.subrange(0, i)) + char_utf8_width(
            s[i],
        ),
{
    assert(s.subrange(0, i + 1).drop_last() =~= s.subrange(0, i));
}

/// A prefix never encodes to more bytes than the whole string.
proof fn lemma_utf8_len_prefix_le(s: Seq<char>, i: int)
    requires
        0 <= i <= s.len(),
    ensures
        spec_utf8_len(s.subrange(0, i)) <= spec_utf8_len(s),
    decreases s.len() - i,
{
    if i == s.len() {
        assert(s.subrange(0, i) =~= s);
    } else {
        lemma_utf8_len_prefix_step(s, i);
        lemma_utf8_len_prefix_le(s, i + 1);
    }
}

/// Whether the string is at most `limit` bytes long in UTF-8; counting
/// stops as soon as the limit is passed.
#[verifier::loop_isolation(false)]
fn utf8_len_at_most(s: &str, limit: usize) -> (r: bool)
    requires
        limit <= 10000,
    ensures
        r == (spec_utf8_len(s@) <= limit),
{
    let n = s.unicode_len();
    let mut total: usize = 0;
    let mut i: usize = 0;
    proof {
        assert(s@.subrange(0, 0) =~= Seq::<char>::empty());
    }
    while i < n
        invariant
            0 <= i <= n,
            n == s@.len(),
            total == spec_utf8_len(s@.subrange(0, i as int)),
            total <= limit,
        decreases n - i,
    {
        let c = s.get_char(i);
        let w: usize = if (c as u32) < 0x80 {
            1
        } else if (c as u32) < 0x800 {
            2
        } else if (c as u32) < 0x10000 {
            3
        } else {
            4
        };
        proof {
            assert(w == char_utf8_width(s@[i as int]));
            lemma_utf8_len_prefix_step(s@, i as int);
        }
        if total + w > limit {
            proof {
                lemma_utf8_len_prefix_le(s@, i + 1);
            }
            return false;
        }
        total = total + w;
        i = i + 1;
    }
    proof {
        assert(s@.subrange(0, n as int) =~= s@);
    }
    true
}

/// The sequence with trailing path separators and trailing lone-dot
/// components stripped: a final `/`, or a final `.` that stands alone as a
/// component, is dropped, repeatedly. What remains ends in a real component
/// (possibly a parent reference), or is empty.
pub open spec fn trim_trailing_dots_and_slashes(s: Seq<char>) -> Seq<char>
    decreases s.len(),
{
    if s.len() == 0 {
        s
    } else if s.last() == '/' {
        trim_trailing_dots_and_slashes(s.drop_last())
    } else if s.last() == '.' && (s.len() == 1 || s[s.len() - 2] == '/') {
        trim_trailing_dots_and_slashes(s.drop_last())
    } else {
        s
    }
}

/// The suffix after the last path separator, the whole sequence when there
/// is none, and empty when the sequence ends in one.
pub open spec fn after_last_slash(s: Seq<char>) -> Seq<char>
    decreases s.len(),
{
    if s.len() == 0 {
        s
    } else if s.last() == '/' {
        Seq::empty()
    } else {
        after_last_slash(s.drop_last()).push(s.last())
    }
}

/// How the header shows a repository path: the current directory by name,
/// paths of at most fifty bytes verbatim, and for longer paths just the
/// final component — trailing separators and lone-dot components dropped —
/// falling back to the whole path when no component remains or the last one
/// is a parent reference.
pub open spec fn spec_format_repo_path(p: Seq<char>) -> Seq<char> {
    if p == "."@ {
        "Current Directory"@
    } else if spec_utf8_len(p) <= 50 {
        p
    } else {
        let base = after_last_slash(trim_trailing_dots_and_slashes(p));
        if base.len() == 0 || base == ".."@ {
            p
        } else {
            base
        }
    }
}

/// In a run with no separator that starts right after one (or at the
/// front), the suffix after the last separator is exactly that run.
proof fn lemma_after_last_slash_pin(t: Seq<char>, start: int)
    requires
        0 <= start <= t.len(),
        start == 0 || t[start - 1] == '/',
        forall|k: int| start <= k < t.len() ==> t[k] != '/',
    ensures
        after_last_slash(t) == t.subrange(start, t.len() as int),
    decreases t.len() - start,
{
    if start == t.len() {
        if t.len() == 0 {
            assert(after_last_slash(t) =~= t.subrange(start, t.len() as int));
        } else {
            assert(t.last() == '/');
            assert(after_last_slash(t) =~= t.subrange(start, t.len() as int));
        }
    } else {
        assert(t.last() != '/');
        let u = t.drop_last();
        assert forall|k: int| start <= k < u.len() implies u[k] != '/' by {
            assert(u[k] == t[k]);
        }
        if start > 0 {
            assert(u[start - 1] == t[start - 1]);
        }
        lemma_after_last_slash_pin(u, start);
        assert(after_last_slash(t) =~= t.subrange(start, t.len() as int));
    }
}

/// Abbreviates a repository path for the header line.
#[verifier::loop_isolation(false)]
pub fn format_repo_path(path: &str) -> (r: String)
    ensures
        r@ == spec_format_repo_path(path@),
{
    if crate::strutil::str_eq(path, ".") {
        return String::from_str("Current Directory");
    }
    if utf8_len_at_most(path, 50) {
        return String::from_str(path);
    }
    let len = path.unicode_len();
    let mut end = len;
    proof {
        assert(path@.subrange(0, len as int) =~= path@);
    }
    while end > 0 && (path.get_char(end - 1) == '/' || (path.get_char(end - 1) == '.' && (end == 1
        || path.get_char(end - 2) == '/')))
        invariant
            0 <= end <= len,
            trim_trailing_dots_and_slashes(path@.subrange(0, end as int))
                == trim_trailing_dots_and_slashes(path@),
        decreases end,
    {
        proof {
            assert(path@.subrange(0, end - 1) =~= path@.subrange(0, end as int).drop_last());
        }
        end = end - 1;
    }
    proof {
        assert(path@.subrange(0, end as int) == trim_trailing_dots_and_slashes(path@));
    }
    let mut start = end;
    while start > 0 && path.get_char(start - 1) != '/'
        invariant
            0 <= start <= end,
            forall|k: int| start <= k < end ==> path@[k] != '/',
        decreases start,
    {
        start = start - 1;
    }
    proof {
        let t = path@.subrange(0, end as int);
        assert forall|k: int| start <= k < t.len() implies t[k] != '/' by {
            assert(t[k] == path@[k]);
        }
        if start > 0 {
            assert(t[start - 1] == path@[start - 1]);
        }
        lemma_after_last_slash_pin(t, start as int);
        assert(t.subrange(start as int, t.len() as int) =~= path@.subrange(
            start as int,
            end as int,
        ));
    }
    let base = path.substring_char(start, end);
    if base.unicode_len() == 0 || crate::strutil::str_eq(base, "..") {
        String::from_str(path)
    } else {
        String::from_str(base)
    }
}

} // verus!
