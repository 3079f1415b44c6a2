//! Paths as text.
//!
//! A path is read byte by byte: `/` and `\` separate its components, whatever
//! the platform, so that the same rules hold for the paths of every editor. A
//! path is never looked up on disk here.

use vstd::prelude::*;
use vstd::string::*;
use vstd::utf8::*;
use crate::text::{
    byte_len, bytes_occur_at, concat_str, lemma_boundary_after_ascii, lemma_boundary_at_ascii,
    slice_str, text_bytes,
};

verus! {

pub const SLASH: u8 = 0x2F;

pub const BACKSLASH: u8 = 0x5C;

/// Whether a byte separates two components of a path.
pub open spec fn is_separator(b: u8) -> bool {
    b == SLASH || b == BACKSLASH
}

/// The length of a path without the separators at its end.
pub open spec fn trimmed_len(path: Seq<u8>) -> int
    decreases path.len(),
{
    if path.len() > 0 && is_separator(path.last()) {
        trimmed_len(path.drop_last())
    } else {
        path.len() as int
    }
}

/// A path without the separators at its end.
pub open spec fn trimmed(path: Seq<u8>) -> Seq<u8> {
    path.subrange(0, trimmed_len(path))
}

/// The offset of the last separator of a path; -1 where it has none.
pub open spec fn last_separator(path: Seq<u8>) -> int
    decreases path.len(),
{
    if path.len() == 0 {
        -1
    } else if is_separator(path.last()) {
        path.len() - 1
    } else {
        last_separator(path.drop_last())
    }
}

/// The length of the directory part of a path: the path up to its last
/// separator, or the leading separator alone where that is the only one; -1
/// where the path has no directory part.
pub open spec fn parent_len(path: Seq<u8>) -> int {
    let at = last_separator(path);
    if at < 0 {
        -1
    } else if at == 0 {
        if path.len() > 1 {
            1
        } else {
            -1
        }
    } else {
        at
    }
}

/// The separator that a path is written with: its last one, or `/` where it
/// has none.
pub open spec fn separator_of(path: Seq<u8>) -> u8 {
    if last_separator(path) >= 0 {
        path[last_separator(path)]
    } else {
        SLASH
    }
}

/// `name` put under the directory `dir`.
pub open spec fn joined(dir: Seq<u8>, name: Seq<u8>) -> Seq<u8> {
    if dir.len() == 0 {
        name
    } else if is_separator(dir.last()) {
        dir + name
    } else {
        dir + seq![separator_of(dir)] + name
    }
}

/// The last component of a path: what follows its last separator.
pub open spec fn file_name(path: Seq<u8>) -> Seq<u8> {
    path.subrange(last_separator(path) + 1, path.len() as int)
}

/// A path and the directories above it, innermost first.
pub open spec fn ancestors(path: Seq<u8>) -> Seq<Seq<u8>>
    decreases path.len(),
{
    if 0 <= parent_len(path) < path.len() {
        seq![path] + ancestors(path.subrange(0, parent_len(path)))
    } else {
        seq![path]
    }
}

/// Whether `path` is `root` or lies below it: after `root`, taken without the
/// separators at its end, `path` ends or goes on with a separator.
pub open spec fn is_under(path: Seq<u8>, root: Seq<u8>) -> bool {
    let n = trimmed_len(root);
    &&& n <= path.len()
    &&& path.subrange(0, n) == trimmed(root)
    &&& (n == path.len() || is_separator(path[n]))
}

/// `path`, which lies under `from`, moved to the same place under `to`.
pub open spec fn translated(path: Seq<u8>, from: Seq<u8>, to: Seq<u8>) -> Seq<u8> {
    trimmed(to) + path.subrange(trimmed_len(from), path.len() as int)
}

pub proof fn lemma_trimmed_len(path: Seq<u8>)
    ensures
        0 <= trimmed_len(path) <= path.len(),
        trimmed_len(path) < path.len() ==> is_separator(path[trimmed_len(path)]),
        trimmed_len(path) > 0 ==> !is_separator(path[trimmed_len(path) - 1]),
    decreases path.len(),
{
    if path.len() > 0 && is_separator(path.last()) {
        lemma_trimmed_len(path.drop_last());
    }
}

pub proof fn lemma_last_separator(path: Seq<u8>)
    ensures
        -1 <= last_separator(path) < path.len(),
        last_separator(path) >= 0 ==> is_separator(path[last_separator(path)]),
        forall|i: int| last_separator(path) < i < path.len() ==> !is_separator(#[trigger] path[i]),
    decreases path.len(),
{
    if path.len() > 0 && !is_separator(path.last()) {
        lemma_last_separator(path.drop_last());
        assert forall|i: int| last_separator(path) < i < path.len() implies !is_separator(
            #[trigger] path[i],
        ) by {
            if i < path.len() - 1 {
                assert(path.drop_last()[i] == path[i]);
            }
        }
    }
}

/// A path moved from one root to another lies under the other; moved back, it
/// is the path it was.
pub proof fn lemma_translate_round_trip(path: Seq<u8>, from: Seq<u8>, to: Seq<u8>)
    requires
        is_under(path, from),
    ensures
        is_under(translated(path, from, to), to),
        translated(translated(path, from, to), to, from) == path,
{
    lemma_trimmed_len(from);
    lemma_trimmed_len(to);
    let rest = path.subrange(trimmed_len(from), path.len() as int);
    let moved = translated(path, from, to);
    assert(moved.subrange(0, trimmed_len(to)) =~= trimmed(to));
    assert(moved.subrange(trimmed_len(to), moved.len() as int) =~= rest);
    assert(trimmed(from) + rest =~= path);
}

/// How separators at the end of the second part of a path count: where that
/// part is more than separators, the first part stays whole; where it is
/// nothing but separators, it counts for nothing.
pub proof fn lemma_trimmed_len_concat(a: Seq<u8>, b: Seq<u8>)
    ensures
        trimmed_len(b) > 0 ==> trimmed_len(a + b) == a.len() + trimmed_len(b),
        trimmed_len(b) == 0 ==> trimmed_len(a + b) == trimmed_len(a),
    decreases b.len(),
{
    if b.len() == 0 {
        assert(a + b =~= a);
    } else {
        assert((a + b).last() == b.last());
        assert((a + b).drop_last() =~= a + b.drop_last());
        if is_separator(b.last()) {
            lemma_trimmed_len_concat(a, b.drop_last());
        }
    }
}

/// A path that was trimmed has no separators left at its end.
pub proof fn lemma_trimmed_is_trimmed(path: Seq<u8>)
    ensures
        trimmed_len(trimmed(path)) == trimmed(path).len(),
{
    lemma_trimmed_len(path);
    let t = trimmed(path);
    if t.len() > 0 {
        assert(t.last() == path[trimmed_len(path) - 1]);
    }
}

/// Whether a path lies under a directory that goes beyond their common
/// start `head`, told from what follows `head` in each.
proof fn lemma_under_beyond_head(head: Seq<u8>, rest_path: Seq<u8>, rest_dir: Seq<u8>)
    requires
        trimmed_len(rest_dir) > 0,
    ensures
        is_under(head + rest_path, head + rest_dir) <==> {
            let k = trimmed_len(rest_dir);
            &&& k <= rest_path.len()
            &&& rest_path.subrange(0, k) == rest_dir.subrange(0, k)
            &&& (k == rest_path.len() || is_separator(rest_path[k]))
        },
{
    let k = trimmed_len(rest_dir);
    let n = head.len() as int;
    let path = head + rest_path;
    let dir = head + rest_dir;
    lemma_trimmed_len(rest_dir);
    lemma_trimmed_len_concat(head, rest_dir);
    assert(trimmed_len(dir) == n + k);
    assert(trimmed(dir) =~= head + rest_dir.subrange(0, k));
    if k <= rest_path.len() {
        assert(path.subrange(0, n + k) =~= head + rest_path.subrange(0, k));
        if rest_path.subrange(0, k) == rest_dir.subrange(0, k) {
            assert(path.subrange(0, n + k) == trimmed(dir));
        }
        if path.subrange(0, n + k) == trimmed(dir) {
            assert forall|i: int| 0 <= i < k implies rest_path.subrange(0, k)[i]
                == rest_dir.subrange(0, k)[i] by {
                assert(path.subrange(0, n + k)[n + i] == rest_path[i]);
                assert(trimmed(dir)[n + i] == rest_dir[i]);
            }
            assert(rest_path.subrange(0, k) =~= rest_dir.subrange(0, k));
        }
        if k < rest_path.len() {
            assert(path[n + k] == rest_path[k]);
        }
    }
}

/// Whether a path lies under a directory that is their common start `head`
/// with nothing but separators after it.
proof fn lemma_under_at_head(head: Seq<u8>, rest_path: Seq<u8>, rest_dir: Seq<u8>)
    requires
        trimmed_len(rest_dir) == 0,
        trimmed_len(head) == head.len(),
    ensures
        is_under(head + rest_path, head + rest_dir) <==> (rest_path.len() == 0 || is_separator(
            rest_path[0],
        )),
{
    let n = head.len() as int;
    let path = head + rest_path;
    let dir = head + rest_dir;
    lemma_trimmed_len_concat(head, rest_dir);
    assert(trimmed_len(dir) == n);
    assert(trimmed(dir) =~= head);
    assert(path.subrange(0, n) =~= head);
    if rest_path.len() > 0 {
        assert(path[n] == rest_path[0]);
    }
}

/// Moving keeps what lies under what: where `path` lies under `dir`, and both
/// lie under `from`, the moved `path` lies under the moved `dir`.
pub proof fn lemma_translate_keeps_under(path: Seq<u8>, dir: Seq<u8>, from: Seq<u8>, to: Seq<u8>)
    requires
        is_under(path, from),
        is_under(dir, from),
        is_under(path, dir),
    ensures
        is_under(translated(path, from, to), translated(dir, from, to)),
{
    lemma_trimmed_len(from);
    lemma_trimmed_is_trimmed(from);
    lemma_trimmed_is_trimmed(to);
    let n = trimmed_len(from);
    let head = trimmed(from);
    let new_head = trimmed(to);
    let rest_path = path.subrange(n, path.len() as int);
    let rest_dir = dir.subrange(n, dir.len() as int);
    assert(head + rest_dir =~= dir);
    assert(head + rest_path =~= path);
    lemma_trimmed_len(rest_dir);
    if trimmed_len(rest_dir) > 0 {
        lemma_under_beyond_head(head, rest_path, rest_dir);
        lemma_under_beyond_head(new_head, rest_path, rest_dir);
    } else {
        lemma_under_at_head(head, rest_path, rest_dir);
        lemma_under_at_head(new_head, rest_path, rest_dir);
    }
}

/// Whether a byte separates two components of a path.
pub fn is_separator_byte(b: u8) -> (r: bool)
    ensures
        r == is_separator(b),
{
    b == SLASH || b == BACKSLASH
}

/// The length of `path` without the separators at its end.
pub fn trimmed_length(path: &str) -> (n: usize)
    ensures
        n == trimmed_len(path.spec_bytes()),
{
    let bytes = path.as_bytes();
    let mut n = bytes.len();
    assert(bytes@.subrange(0, n as int) =~= bytes@);
    while n > 0 && is_separator_byte(bytes[n - 1])
        invariant
            n <= bytes@.len(),
            trimmed_len(bytes@) == trimmed_len(bytes@.subrange(0, n as int)),
        decreases n,
    {
        assert(bytes@.subrange(0, n as int).drop_last() =~= bytes@.subrange(0, n - 1));
        n = n - 1;
    }
    n
}

/// The offset of the last separator of `path`.
pub fn find_last_separator(path: &str) -> (r: Option<usize>)
    ensures
        match r {
            Some(at) => at == last_separator(path.spec_bytes()),
            None => last_separator(path.spec_bytes()) == -1,
        },
{
    let bytes = path.as_bytes();
    let mut n = bytes.len();
    assert(bytes@.subrange(0, n as int) =~= bytes@);
    while n > 0
        invariant
            n <= bytes@.len(),
            bytes@ == path.spec_bytes(),
            last_separator(bytes@) == last_separator(bytes@.subrange(0, n as int)),
        decreases n,
    {
        if is_separator_byte(bytes[n - 1]) {
            assert(bytes@.subrange(0, n as int).last() == bytes@[n - 1]);
            return Some(n - 1);
        }
        assert(bytes@.subrange(0, n as int).last() == bytes@[n - 1]);
        assert(bytes@.subrange(0, n as int).drop_last() =~= bytes@.subrange(0, n - 1));
        n = n - 1;
    }
    None
}

/// The length of the directory part of `path`, where it has one.
pub fn parent_length(path: &str) -> (r: Option<usize>)
    ensures
        match r {
            Some(n) => n == parent_len(path.spec_bytes()) && n < path.spec_bytes().len(),
            None => parent_len(path.spec_bytes()) == -1,
        },
{
    proof {
        lemma_last_separator(path.spec_bytes());
    }
    match find_last_separator(path) {
        None => None,
        Some(at) => {
            if at == 0 {
                if byte_len(path) > 1 {
                    Some(1)
                } else {
                    None
                }
            } else {
                Some(at)
            }
        },
    }
}

/// The directory part of `path`, where it has one.
pub fn parent_dir(path: &str) -> (r: Option<&str>)
    ensures
        match r {
            Some(dir) => 0 <= parent_len(path.spec_bytes()) < path.spec_bytes().len()
                && dir.spec_bytes() == path.spec_bytes().subrange(
                0,
                parent_len(path.spec_bytes()),
            ),
            None => parent_len(path.spec_bytes()) == -1,
        },
{
    match parent_length(path) {
        None => None,
        Some(n) => {
            proof {
                let bytes = path.spec_bytes();
                encode_utf8_valid_utf8(path@);
                lemma_last_separator(bytes);
                is_char_boundary_start_end_of_seq(bytes);
                if last_separator(bytes) == 0 {
                    lemma_boundary_after_ascii(bytes, 1);
                } else {
                    lemma_boundary_at_ascii(bytes, n as int);
                }
            }
            Some(slice_str(path, 0, n))
        },
    }
}

/// The text of a separator.
fn separator_str(b: u8) -> (r: &'static str)
    requires
        is_separator(b),
    ensures
        r.spec_bytes() == seq![b],
{
    proof {
        reveal_strlit("/");
        reveal_strlit("\\");
        is_ascii_chars_encode_utf8("/"@);
        is_ascii_chars_encode_utf8("\\"@);
    }
    if b == SLASH {
        assert("/".spec_bytes() =~= seq![b]);
        "/"
    } else {
        assert("\\".spec_bytes() =~= seq![b]);
        "\\"
    }
}

/// `name` put under the directory `dir`, with the separator that `dir` is
/// written with.
pub fn join_path(dir: &str, name: &str) -> (r: String)
    ensures
        text_bytes(r@) == joined(dir.spec_bytes(), name.spec_bytes()),
{
    let bytes = dir.as_bytes();
    let n = bytes.len();
    if n == 0 {
        name.to_owned()
    } else if is_separator_byte(bytes[n - 1]) {
        concat_str(dir, name)
    } else {
        proof {
            lemma_last_separator(dir.spec_bytes());
        }
        let sep = match find_last_separator(dir) {
            Some(at) => bytes[at],
            None => SLASH,
        };
        let head = concat_str(dir, separator_str(sep));
        concat_str(head.as_str(), name)
    }
}

/// The last component of `path`.
pub fn file_name_of(path: &str) -> (r: &str)
    ensures
        r.spec_bytes() == file_name(path.spec_bytes()),
{
    let len = byte_len(path);
    proof {
        lemma_last_separator(path.spec_bytes());
    }
    let start = match find_last_separator(path) {
        Some(at) => at + 1,
        None => 0,
    };
    proof {
        let bytes = path.spec_bytes();
        encode_utf8_valid_utf8(path@);
        is_char_boundary_start_end_of_seq(bytes);
        if start > 0 {
            lemma_boundary_after_ascii(bytes, start as int);
        }
    }
    slice_str(path, start, len)
}

/// Whether `path` is `root` or lies below it.
pub fn path_is_under(path: &str, root: &str) -> (r: bool)
    ensures
        r == is_under(path.spec_bytes(), root.spec_bytes()),
{
    let n = trimmed_length(root);
    let p = path.as_bytes();
    let q = root.as_bytes();
    proof {
        lemma_trimmed_len(root.spec_bytes());
    }
    if n > p.len() {
        return false;
    }
    let mut i: usize = 0;
    while i < n
        invariant
            i <= n,
            n <= p@.len(),
            n <= q@.len(),
            p@ == path.spec_bytes(),
            q@ == root.spec_bytes(),
            n == trimmed_len(root.spec_bytes()),
            forall|j: int| 0 <= j < i ==> p@[j] == q@[j],
        decreases n - i,
    {
        if p[i] != q[i] {
            assert(p@.subrange(0, n as int)[i as int] == p@[i as int]);
            assert(q@.subrange(0, n as int)[i as int] == q@[i as int]);
            assert(p@.subrange(0, n as int) != q@.subrange(0, n as int));
            return false;
        }
        i = i + 1;
    }
    assert(p@.subrange(0, n as int) =~= q@.subrange(0, n as int));
    n == p.len() || is_separator_byte(p[n])
}

/// `path` moved from under `from` to the same place under `to`; `None` where
/// `path` does not lie under `from`.
pub fn translate_path(path: &str, from: &str, to: &str) -> (r: Option<String>)
    ensures
        r is Some <==> is_under(path.spec_bytes(), from.spec_bytes()),
        r matches Some(moved) ==> text_bytes(moved@) == translated(
            path.spec_bytes(),
            from.spec_bytes(),
            to.spec_bytes(),
        ),
{
    if !path_is_under(path, from) {
        return None;
    }
    let cut = trimmed_length(from);
    let keep = trimmed_length(to);
    let len = byte_len(path);
    proof {
        encode_utf8_valid_utf8(path@);
        encode_utf8_valid_utf8(to@);
        lemma_trimmed_len(from.spec_bytes());
        lemma_trimmed_len(to.spec_bytes());
        is_char_boundary_start_end_of_seq(path.spec_bytes());
        is_char_boundary_start_end_of_seq(to.spec_bytes());
        if cut < len {
            lemma_boundary_at_ascii(path.spec_bytes(), cut as int);
        }
        if keep < to.spec_bytes().len() {
            lemma_boundary_at_ascii(to.spec_bytes(), keep as int);
        }
    }
    let head = slice_str(to, 0, keep);
    let rest = slice_str(path, cut, len);
    Some(concat_str(head, rest))
}

} // verus!
