//! Resolution of request paths to file paths under the document root.
//!
//! A request path is split on `/`; each segment is percent-decoded and the
//! decoded bytes must form valid UTF-8; a segment that decodes to `..` or
//! holds a backslash or NUL is rejected outright.  The surviving segments
//! are appended under the document root.  Segment screening alone does not
//! stop symlink escapes, so the caller must canonicalize the resulting path
//! and check it with [`path_within_root`] before serving: that containment
//! check is the security boundary.

use vstd::prelude::*;

use crate::text::contains_char;
use crate::text::find_from;
use crate::text::find_from_spec;
use crate::text::to_char_vec;
use vstd::utf8::decode_utf8;
use vstd::utf8::encode_utf8;
use vstd::utf8::valid_utf8;

verus! {

/// ASCII code of `%`.
pub open spec fn percent_byte() -> u8 {
    37
}

pub open spec fn is_hex_digit(b: u8) -> bool {
    (48 <= b <= 57) || (65 <= b <= 70) || (97 <= b <= 102)
}

/// The numeric value of a hexadecimal digit byte.
pub open spec fn hex_val(b: u8) -> u8 {
    if 48 <= b <= 57 {
        (b - 48) as u8
    } else if 65 <= b <= 70 {
        (b - 55) as u8
    } else {
        (b - 87) as u8
    }
}

/// Percent-decoding of a byte sequence: every `%` followed by two hex
/// digits becomes the encoded byte; anything else passes through unchanged.
pub open spec fn percent_decode_spec(s: Seq<u8>) -> Seq<u8>
    decreases s.len(),
{
    if s.len() == 0 {
        seq![]
    } else if s[0] == percent_byte() && s.len() >= 3 && is_hex_digit(s[1]) && is_hex_digit(s[2]) {
        seq![(16 * hex_val(s[1]) + hex_val(s[2])) as u8] + percent_decode_spec(s.skip(3))
    } else {
        seq![s[0]] + percent_decode_spec(s.skip(1))
    }
}

fn hex_digit_value(b: u8) -> (r: Option<u8>)
    ensures
        r is Some <==> is_hex_digit(b),
        r matches Some(v) ==> v == hex_val(b) && v <= 15,
{
    if 48 <= b && b <= 57 {
        Some(b - 48)
    } else if 65 <= b && b <= 70 {
        Some(b - 55)
    } else if 97 <= b && b <= 102 {
        Some(b - 87)
    } else {
        None
    }
}

/// Percent-decodes a byte sequence.
pub fn percent_decode(b: &Vec<u8>) -> (r: Vec<u8>)
    ensures
        r@ == percent_decode_spec(b@),
{
    let n = b.len();
    let mut out: Vec<u8> = Vec::new();
    let mut i: usize = 0;
    proof {
        assert(b@.skip(0) =~= b@);
        assert(out@ + percent_decode_spec(b@) =~= percent_decode_spec(b@));
    }
    while i < n
        invariant
            n == b@.len(),
            i <= n,
            percent_decode_spec(b@) == out@ + percent_decode_spec(b@.skip(i as int)),
        decreases n - i,
    {
        let rest: Ghost<Seq<u8>> = Ghost(b@.skip(i as int));
        if b[i] == 37 && n - i >= 3 {
            let h1 = hex_digit_value(b[i + 1]);
            let h2 = hex_digit_value(b[i + 2]);
            match (h1, h2) {
                (Some(v1), Some(v2)) => {
                    proof {
                        assert(rest@[0] == b@[i as int]);
                        assert(rest@[1] == b@[i + 1]);
                        assert(rest@[2] == b@[i + 2]);
                        assert(rest@.skip(3) =~= b@.skip(i + 3));
                        assert(out@ + percent_decode_spec(rest@) == out@ + (seq![
                            (16 * hex_val(rest@[1]) + hex_val(rest@[2])) as u8,
                        ] + percent_decode_spec(rest@.skip(3))));
                    }
                    out.push(16 * v1 + v2);
                    i = i + 3;
                    proof {
                        assert(percent_decode_spec(b@) == out@ + percent_decode_spec(
                            b@.skip(i as int),
                        ));
                    }
                },
                _ => {
                    proof {
                        assert(rest@.skip(1) =~= b@.skip(i + 1));
                    }
                    out.push(b[i]);
                    i = i + 1;
                },
            }
        } else {
            proof {
                assert(rest@[0] == b@[i as int]);
                assert(rest@.skip(1) =~= b@.skip(i + 1));
            }
            out.push(b[i]);
            i = i + 1;
        }
    }
    proof {
        assert(b@.skip(n as int) =~= Seq::<u8>::empty());
        assert(out@ + percent_decode_spec(b@.skip(n as int)) =~= out@);
    }
    out
}

/// Relies on `String::from_utf8`: it returns `Ok` exactly when the bytes
/// are a valid UTF-8 encoding, and the returned string holds the characters
/// those bytes encode.
#[verifier::external_body]
fn utf8_to_string(bytes: Vec<u8>) -> (r: Option<String>)
    ensures
        r is Some <==> valid_utf8(bytes@),
        r matches Some(s) ==> s@ == decode_utf8(bytes@),
{
    String::from_utf8(bytes).ok()
}

/// The parts of `s` between occurrences of `/`.
pub open spec fn split_slash(s: Seq<char>) -> Seq<Seq<char>>
    decreases s.len(),
{
    match find_from_spec(s, "/"@, 0) {
        None => seq![s],
        Some(i) => if 0 <= i < s.len() {
            seq![s.take(i)] + split_slash(s.skip(i + 1))
        } else {
            seq![s]
        },
    }
}

/// One step of path building: empty and `.` segments are dropped; a
/// segment whose percent-decoded bytes are not UTF-8, or decode to text
/// holding a backslash or NUL, or to exactly `..`, rejects the whole path;
/// any other segment is appended after a separator.
pub open spec fn seg_step(acc: Seq<char>, seg: Seq<char>) -> Option<Seq<char>> {
    if seg.len() == 0 || seg == "."@ {
        Some(acc)
    } else {
        let db = percent_decode_spec(encode_utf8(seg));
        if !valid_utf8(db) {
            None
        } else {
            let d = decode_utf8(db);
            if contains_char(d, '\\') || contains_char(d, '\u{0000}') || d == ".."@ {
                None
            } else {
                Some(acc + "/"@ + d)
            }
        }
    }
}

pub open spec fn join_segments(acc: Seq<char>, segs: Seq<Seq<char>>) -> Option<Seq<char>>
    decreases segs.len(),
{
    if segs.len() == 0 {
        Some(acc)
    } else {
        match seg_step(acc, segs[0]) {
            None => None,
            Some(a) => join_segments(a, segs.skip(1)),
        }
    }
}

/// The path under `root` that a request path names, or `None` when any
/// segment is rejected.
pub open spec fn join_spec(root: Seq<char>, path: Seq<char>) -> Option<Seq<char>> {
    join_segments(root, split_slash(path))
}

fn append_segment(acc: String, seg: &str) -> (r: Option<String>)
    ensures
        match r {
            Some(a2) => seg_step(acc@, seg@) == Some(a2@),
            None => seg_step(acc@, seg@) is None,
        },
{
    proof {
        reveal_strlit(".");
        reveal_strlit("..");
        reveal_strlit("/");
    }
    let sv = to_char_vec(seg);
    if sv.len() == 0 {
        return Some(acc);
    }
    if sv.len() == 1 && sv[0] == '.' {
        proof {
            assert(seg@ =~= "."@);
        }
        return Some(acc);
    }
    proof {
        assert(seg@ != "."@) by {
            if seg@ == "."@ {
                assert(sv@[0] == "."@[0]);
            }
        }
    }
    let bytes = seg.as_bytes_vec();
    let db = percent_decode(&bytes);
    match utf8_to_string(db) {
        None => None,
        Some(d) => {
            let dv = to_char_vec(d.as_str());
            if has_char(&dv, '\\') {
                return None;
            }
            if has_char(&dv, '\u{0000}') {
                return None;
            }
            if crate::text::str_eq(d.as_str(), "..") {
                return None;
            }
            let mut a2 = acc;
            a2.append("/");
            a2.append(d.as_str());
            Some(a2)
        },
    }
}

fn has_char(v: &Vec<char>, c: char) -> (r: bool)
    ensures
        r == contains_char(v@, c),
{
    let mut i: usize = 0;
    while i < v.len()
        invariant
            i <= v@.len(),
            forall|k: int| 0 <= k < i ==> v@[k] != c,
        decreases v@.len() - i,
    {
        if v[i] == c {
            return true;
        }
        i = i + 1;
    }
    false
}

/// Maps a request path to the path it names under `root`.
///
/// Splits on `/`, percent-decodes each segment as UTF-8, drops empty and
/// `.` segments, and rejects the path when a segment fails to decode,
/// decodes to `..`, or holds a backslash or NUL.  Rejection alone does not
/// make the result safe to serve: the caller must canonicalize it and
/// confirm containment with [`path_within_root`].
pub fn join_under_root(root: &str, uri_path: &str) -> (r: Option<String>)
    ensures
        match r {
            Some(s) => join_spec(root@, uri_path@) == Some(s@),
            None => join_spec(root@, uri_path@) is None,
        },
{
    proof {
        reveal_strlit("/");
    }
    let v = to_char_vec(uri_path);
    let slash = to_char_vec("/");
    let n = v.len();
    let mut acc = root.to_owned();
    let mut pos: usize = 0;
    proof {
        assert(uri_path@.skip(0) =~= uri_path@);
    }
    loop
        invariant
            v@ == uri_path@,
            slash@ == "/"@,
            n == uri_path@.len(),
            pos <= n,
            "/"@.len() == 1,
            join_segments(acc@, split_slash(uri_path@.skip(pos as int))) == join_spec(
                root@,
                uri_path@,
            ),
        decreases n - pos,
    {
        let seg_end = find_from(&v, &slash, pos);
        proof {
            crate::text::lemma_find_skip(uri_path@, "/"@, pos as int);
        }
        let ghost tail = uri_path@.skip(pos as int);
        let ghost acc0 = acc@;
        match seg_end {
            Some(j) => {
                proof {
                    crate::text::lemma_find_from_props(uri_path@, "/"@, pos as int);
                    assert(find_from_spec(tail, "/"@, 0) == Some(j - pos));
                    assert(tail.take(j - pos) =~= uri_path@.subrange(pos as int, j as int));
                    assert(tail.skip(j - pos + 1) =~= uri_path@.skip(j + 1));
                    assert(split_slash(tail) == seq![tail.take(j - pos)] + split_slash(
                        uri_path@.skip(j + 1),
                    ));
                }
                let seg = uri_path.substring_char(pos, j);
                match append_segment(acc, seg) {
                    Some(a2) => {
                        proof {
                            assert(seg_step(acc0, tail.take(j - pos)) == Some(a2@));
                            assert(split_slash(tail)[0] == tail.take(j - pos));
                            assert(split_slash(tail).skip(1) =~= split_slash(uri_path@.skip(j + 1)));
                            assert(join_segments(acc0, split_slash(tail)) == join_segments(
                                a2@,
                                split_slash(uri_path@.skip(j + 1)),
                            ));
                        }
                        acc = a2;
                        pos = j + 1;
                    },
                    None => {
                        proof {
                            assert(join_segments(acc0, split_slash(tail)) is None);
                        }
                        return None;
                    },
                }
            },
            None => {
                proof {
                    assert(tail =~= uri_path@.subrange(pos as int, n as int));
                    assert(split_slash(tail) == seq![tail]);
                }
                let seg = uri_path.substring_char(pos, n);
                match append_segment(acc, seg) {
                    Some(a2) => {
                        proof {
                            assert(seg_step(acc0, tail) == Some(a2@));
                            assert((seq![tail]).skip(1) =~= Seq::<Seq<char>>::empty());
                            assert(join_segments(a2@, (seq![tail]).skip(1)) == Some(a2@));
                            assert(join_segments(acc0, seq![tail]) == Some(a2@));
                        }
                        return Some(a2);
                    },
                    None => {
                        proof {
                            assert(join_segments(acc0, split_slash(tail)) is None);
                        }
                        return None;
                    },
                }
            },
        }
    }
}

/// The canonical path lies within the canonical root, compared at path
/// component boundaries: the root is a prefix and the next character, if
/// any, starts a new component.
pub open spec fn path_within_root(path: Seq<char>, root: Seq<char>) -> bool {
    &&& crate::text::is_prefix_of(root, path)
    &&& (path.len() == root.len() || path[root.len() as int] == '/' || (root.len() > 0 && root[
        root.len() - 1
    ] == '/'))
}

/// Whether a canonicalized path stays inside the canonicalized document
/// root.  This check, applied after symlink resolution, is what prevents a
/// symlink inside the root from serving files outside it.
pub fn path_contained(path: &str, root: &str) -> (r: bool)
    ensures
        r == path_within_root(path@, root@),
{
    let pv = to_char_vec(path);
    let rv = to_char_vec(root);
    if rv.len() > pv.len() {
        return false;
    }
    if !crate::text::match_at(&pv, &rv, 0) {
        proof {
            crate::text::lemma_match_chars_iff(path@, root@, 0, 0);
        }
        return false;
    }
    proof {
        crate::text::lemma_match_chars_iff(path@, root@, 0, 0);
    }
    if pv.len() == rv.len() {
        return true;
    }
    if pv[rv.len()] == '/' {
        return true;
    }
    rv.len() > 0 && rv[rv.len() - 1] == '/'
}

/// Traversal safety: a request path one of whose segments percent-decodes
/// to exactly `..` — written literally or in any percent-encoded spelling —
/// is always rejected, whatever the root.
pub proof fn lemma_traversal_rejected(root: Seq<char>, path: Seq<char>, k: int)
    requires
        0 <= k < split_slash(path).len(),
        valid_utf8(percent_decode_spec(encode_utf8(split_slash(path)[k]))),
        decode_utf8(percent_decode_spec(encode_utf8(split_slash(path)[k]))) == ".."@,
    ensures
        join_spec(root, path) is None,
{
    lemma_join_segments_reject(root, split_slash(path), k);
}

proof fn lemma_join_segments_reject(acc: Seq<char>, segs: Seq<Seq<char>>, k: int)
    requires
        0 <= k < segs.len(),
        valid_utf8(percent_decode_spec(encode_utf8(segs[k]))),
        decode_utf8(percent_decode_spec(encode_utf8(segs[k]))) == ".."@,
    ensures
        join_segments(acc, segs) is None,
    decreases segs.len(),
{
    reveal_strlit(".");
    reveal_strlit("..");
    if k == 0 {
        let seg = segs[0];
        assert(".."@.len() == 2);
        if seg.len() == 0 {
            assert(encode_utf8(seg) =~= Seq::<u8>::empty());
            assert(percent_decode_spec(Seq::<u8>::empty()) =~= Seq::<u8>::empty());
            assert(decode_utf8(Seq::<u8>::empty()) =~= Seq::<char>::empty());
            assert(false);
        } else if seg == "."@ {
            assert(vstd::utf8::is_ascii_chars(seg));
            vstd::utf8::is_ascii_chars_encode_utf8(seg);
            assert(encode_utf8(seg) =~= seq![46u8]);
            assert(percent_decode_spec(seq![46u8]) =~= seq![46u8] + percent_decode_spec(
                seq![46u8].skip(1),
            ));
            assert(seq![46u8].skip(1) =~= Seq::<u8>::empty());
            assert(percent_decode_spec(seq![46u8]) =~= seq![46u8]);
            vstd::utf8::encode_utf8_decode_utf8(seg);
            assert(decode_utf8(seq![46u8]) == seg);
            assert(false);
        } else {
            assert(seg_step(acc, seg) is None);
        }
    } else {
        match seg_step(acc, segs[0]) {
            None => {},
            Some(a) => {
                assert(segs.skip(1)[k - 1] == segs[k]);
                lemma_join_segments_reject(a, segs.skip(1), k - 1);
            },
        }
    }
}

} // verus!
