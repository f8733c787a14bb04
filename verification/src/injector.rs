//! The reversible HTML enhancement transform.
//!
//! `inject` places a marker comment and a style block before the last
//! `</head>` and a script block before the last `</body>` of a document;
//! `revert` removes them again.  Both return `None` when nothing changes, so
//! repeated application is a no-op.  The injected style and script payloads
//! are fixed at build time; the transform only positions them relative to
//! the fixed anchors and never inspects the rest of the document.

use vstd::prelude::*;

use crate::text::contains_seq;
use crate::text::find_from;
use crate::text::find_from_spec;
use crate::text::match_chars_from;
use crate::text::matches_at;
use crate::text::rfind;
use crate::text::rfind_spec;
use crate::text::to_char_vec;

verus! {

/// The sentinel comment marking a document as already enhanced.
pub open spec fn marker() -> Seq<char> {
    "<!-- CDV: injected -->"@
}

/// The marker followed by the newline that `inject` writes after it.
pub open spec fn marker_nl() -> Seq<char> {
    "<!-- CDV: injected -->\n"@
}

pub open spec fn head_close() -> Seq<char> {
    "</head>"@
}

pub open spec fn body_close() -> Seq<char> {
    "</body>"@
}

pub open spec fn style_open() -> Seq<char> {
    "<style id=\"cdv-style\">"@
}

pub open spec fn style_close() -> Seq<char> {
    "</style>"@
}

pub open spec fn script_open() -> Seq<char> {
    "<script id=\"cdv-script\">"@
}

pub open spec fn script_close() -> Seq<char> {
    "</script>"@
}

/// The id marker whose presence means the style block was injected.
pub open spec fn style_key() -> Seq<char> {
    "cdv-style"@
}

/// The id marker whose presence means the script block was injected.
pub open spec fn script_key() -> Seq<char> {
    "cdv-script"@
}

/// Everything `inject` places before the last `</head>`: the marker comment
/// and the style block holding the stylesheet payload.
pub open spec fn head_insert() -> Seq<char> {
    "<!-- CDV: injected -->\n<style id=\"cdv-style\">\n.cdv-bar{position:sticky;top:0}\n</style>\n"@
}

/// Everything `inject` places before the last `</body>`: the script block
/// holding the script payload.
pub open spec fn body_insert() -> Seq<char> {
    "<script id=\"cdv-script\">\nconsole.log('cdv assets ready');\n</script>\n"@
}

/// The document after the head insertion: `head_insert` spliced in before
/// the last `</head>`, or the document unchanged if it has none.
pub open spec fn head_inserted(c: Seq<char>) -> Seq<char> {
    match rfind_spec(c, head_close()) {
        Some(h) => c.subrange(0, h) + head_insert() + c.subrange(h, c.len() as int),
        None => c,
    }
}

/// The document after both insertions; the body insertion point is searched
/// again on the head-inserted text, since the first splice shifts offsets.
pub open spec fn body_inserted(c1: Seq<char>) -> Seq<char> {
    match rfind_spec(c1, body_close()) {
        Some(b) => c1.subrange(0, b) + body_insert() + c1.subrange(b, c1.len() as int),
        None => c1,
    }
}

/// What `inject` returns: `None` for an already-enhanced document and for a
/// document with neither anchor, otherwise the document with the blocks
/// spliced in.
pub open spec fn inject_spec(c: Seq<char>) -> Option<Seq<char>> {
    if contains_seq(c, marker()) {
        None
    } else {
        let c1 = head_inserted(c);
        if rfind_spec(c, head_close()) is Some || rfind_spec(c1, body_close()) is Some {
            Some(body_inserted(c1))
        } else {
            None
        }
    }
}

/// Removes the span from the first occurrence of `open` through the first
/// occurrence of `close` at or after it, plus one trailing newline if
/// present; the text is unchanged when either tag is missing.
pub open spec fn remove_block(s: Seq<char>, open: Seq<char>, close: Seq<char>) -> Seq<char> {
    match find_from_spec(s, open, 0) {
        None => s,
        Some(i) => match find_from_spec(s, close, i) {
            None => s,
            Some(j) => {
                let end = j + close.len();
                let end2 = if end < s.len() && s[end] == '\n' {
                    end + 1
                } else {
                    end
                };
                s.subrange(0, i) + s.subrange(end2, s.len() as int)
            },
        },
    }
}

/// Left-to-right removal of every occurrence of `p`, as `str::replace` with
/// an empty replacement performs it.
pub open spec fn remove_all(s: Seq<char>, p: Seq<char>) -> Seq<char>
    decreases s.len(),
{
    if p.len() == 0 || s.len() < p.len() {
        s
    } else if crate::text::is_prefix_of(p, s) {
        remove_all(s.skip(p.len() as int), p)
    } else {
        seq![s[0]] + remove_all(s.skip(1), p)
    }
}

/// What `revert` returns: `None` when neither injected-block id marker is
/// present, otherwise the text with the style block, the script block and
/// the marker comment removed — or `None` if those removals changed nothing.
pub open spec fn revert_spec(c: Seq<char>) -> Option<Seq<char>> {
    if !contains_seq(c, style_key()) && !contains_seq(c, script_key()) {
        None
    } else {
        let c1 = remove_block(c, style_open(), style_close());
        let c2 = remove_block(c1, script_open(), script_close());
        let c3 = remove_all(remove_all(c2, marker_nl()), marker());
        if c3 == c {
            None
        } else {
            Some(c3)
        }
    }
}

/// Splices `mid` into `s` before character index `at`.
fn splice(s: &str, at: usize, mid: &str) -> (r: String)
    requires
        at <= s@.len(),
    ensures
        r@ == s@.subrange(0, at as int) + mid@ + s@.subrange(at as int, s@.len() as int),
{
    let n = s.unicode_len();
    let mut r = String::new();
    r.append(s.substring_char(0, at));
    r.append(mid);
    r.append(s.substring_char(at, n));
    r
}

/// Adds the enhancement blocks to a plain HTML document.
///
/// Returns `None` when the document already carries the enhancement marker
/// or offers neither a `</head>` nor a `</body>` anchor; otherwise returns
/// the enhanced text.  The input is never modified.
pub fn inject(content: &str) -> (r: Option<String>)
    ensures
        match r {
            Some(s) => inject_spec(content@) == Some(s@),
            None => inject_spec(content@) is None,
        },
{
    proof {
        reveal_strlit("<!-- CDV: injected -->");
        reveal_strlit("</head>");
        reveal_strlit("</body>");
    }
    let v = to_char_vec(content);
    let marker_v = to_char_vec("<!-- CDV: injected -->");
    if find_from(&v, &marker_v, 0).is_some() {
        return None;
    }
    let head_v = to_char_vec("</head>");
    let had_head: bool;
    let c1: String = match rfind(&v, &head_v) {
        Some(h) => {
            proof {
                crate::text::lemma_rfind_props(content@, head_close());
            }
            had_head = true;
            splice(
                content,
                h,
                "<!-- CDV: injected -->\n<style id=\"cdv-style\">\n.cdv-bar{position:sticky;top:0}\n</style>\n",
            )
        },
        None => {
            had_head = false;
            content.to_owned()
        },
    };
    proof {
        assert(c1@ == head_inserted(content@));
    }
    let v1 = to_char_vec(c1.as_str());
    let body_v = to_char_vec("</body>");
    match rfind(&v1, &body_v) {
        Some(b) => {
            proof {
                crate::text::lemma_rfind_props(c1@, body_close());
            }
            let c2 = splice(
                c1.as_str(),
                b,
                "<script id=\"cdv-script\">\nconsole.log('cdv assets ready');\n</script>\n",
            );
            proof {
                assert(c2@ == body_inserted(c1@));
            }
            Some(c2)
        },
        None => {
            if had_head {
                proof {
                    assert(body_inserted(c1@) == c1@);
                }
                Some(c1)
            } else {
                None
            }
        },
    }
}


/// Removing a pattern that occurs nowhere changes nothing.
pub proof fn lemma_remove_all_free(s: Seq<char>, p: Seq<char>)
    requires
        p.len() >= 1,
        !contains_seq(s, p),
    ensures
        remove_all(s, p) == s,
    decreases s.len(),
{
    crate::text::lemma_contains_iff(s, p);
    if s.len() >= p.len() {
        if crate::text::is_prefix_of(p, s) {
            assert(matches_at(s, p, 0));
        }
        assert(s.skip(1) =~= s.subrange(1, s.len() as int));
        crate::text::lemma_subrange_free(s, p, 1, s.len() as int);
        lemma_remove_all_free(s.skip(1), p);
        assert(seq![s[0]] + s.skip(1) =~= s);
    }
}

/// Removal proceeds from the first occurrence: everything before it is
/// kept, the occurrence is dropped, and removal continues after it.
pub proof fn lemma_remove_all_step(s: Seq<char>, p: Seq<char>, j: int)
    requires
        p.len() >= 1,
        find_from_spec(s, p, 0) == Some(j),
    ensures
        remove_all(s, p) == s.subrange(0, j) + remove_all(s.skip(j + p.len()), p),
    decreases s.len(),
{
    crate::text::lemma_find_from_props(s, p, 0);
    if j == 0 {
        assert(crate::text::is_prefix_of(p, s));
        assert(remove_all(s, p) == remove_all(s.skip(p.len() as int), p));
        assert(s.subrange(0, 0) + remove_all(s.skip(p.len() as int), p) =~= remove_all(
            s.skip(p.len() as int),
            p,
        ));
    } else {
        assert(!matches_at(s, p, 0));
        if crate::text::is_prefix_of(p, s) {
            assert(matches_at(s, p, 0));
        }
        crate::text::lemma_find_skip(s, p, 1);
        assert(find_from_spec(s, p, 1) == Some(j)) by {
            crate::text::lemma_find_from_exact(s, p, 1, j);
        }
        lemma_remove_all_step(s.skip(1), p, j - 1);
        assert(s.skip(1).subrange(0, j - 1) =~= s.subrange(1, j));
        assert(s.skip(1).skip(j - 1 + p.len()) =~= s.skip(j + p.len()));
        assert(seq![s[0]] + (s.subrange(1, j) + remove_all(s.skip(j + p.len()), p)) =~= s.subrange(
            0,
            j,
        ) + remove_all(s.skip(j + p.len()), p));
    }
}

/// Deletes every occurrence of `pat` from `s`, scanning left to right.
fn remove_occurrences(s: &str, pat: &str) -> (r: String)
    requires
        pat@.len() >= 1,
    ensures
        r@ == remove_all(s@, pat@),
{
    let v = to_char_vec(s);
    let pv = to_char_vec(pat);
    let n = s.unicode_len();
    let mut out = String::new();
    let mut i: usize = 0;
    proof {
        assert(s@.skip(0) =~= s@);
        assert(out@ + remove_all(s@, pat@) =~= remove_all(s@, pat@));
    }
    loop
        invariant
            n == s@.len(),
            v@ == s@,
            pv@ == pat@,
            pat@.len() >= 1,
            i <= n,
            remove_all(s@, pat@) == out@ + remove_all(s@.skip(i as int), pat@),
        decreases n - i,
    {
        match find_from(&v, &pv, i) {
            Some(j) => {
                proof {
                    crate::text::lemma_find_from_props(s@, pat@, i as int);
                    crate::text::lemma_find_skip(s@, pat@, i as int);
                    lemma_remove_all_step(s@.skip(i as int), pat@, j - i);
                    assert(s@.skip(i as int).subrange(0, j - i) =~= s@.subrange(i as int, j as int));
                    assert(s@.skip(i as int).skip(j - i + pat@.len()) =~= s@.skip(
                        j + pat@.len(),
                    ));
                }
                out.append(s.substring_char(i, j));
                i = j + pv.len();
            },
            None => {
                proof {
                    crate::text::lemma_find_skip(s@, pat@, i as int);
                    lemma_remove_all_free(s@.skip(i as int), pat@);
                    assert(s@.skip(i as int) =~= s@.subrange(i as int, n as int));
                }
                out.append(s.substring_char(i, n));
                return out;
            },
        }
    }
}

/// Removes the span from the first `open_pat` through the first `close_pat`
/// at or after it, plus one trailing newline, if both are present.
fn strip_block(s: &str, open_pat: &str, close_pat: &str) -> (r: String)
    requires
        open_pat@.len() >= 1,
        close_pat@.len() >= 1,
    ensures
        r@ == remove_block(s@, open_pat@, close_pat@),
{
    let v = to_char_vec(s);
    let ov = to_char_vec(open_pat);
    let cv = to_char_vec(close_pat);
    let n = s.unicode_len();
    match find_from(&v, &ov, 0) {
        Some(i) => {
            match find_from(&v, &cv, i) {
                Some(j) => {
                    proof {
                        crate::text::lemma_find_from_props(s@, open_pat@, 0);
                        crate::text::lemma_find_from_props(s@, close_pat@, i as int);
                    }
                    let end = j + cv.len();
                    let end2 = if end < n && v[end] == '\n' {
                        end + 1
                    } else {
                        end
                    };
                    let mut r = String::new();
                    r.append(s.substring_char(0, i));
                    r.append(s.substring_char(end2, n));
                    r
                },
                None => s.to_owned(),
            }
        },
        None => s.to_owned(),
    }
}

/// Removes the enhancement blocks from an enhanced HTML document.
///
/// Returns `None` when the document carries neither injected-block id
/// marker, or when removing the blocks and the marker comment leaves the
/// text unchanged; otherwise returns the restored text.
pub fn revert(content: &str) -> (r: Option<String>)
    ensures
        match r {
            Some(s) => revert_spec(content@) == Some(s@),
            None => revert_spec(content@) is None,
        },
{
    proof {
        reveal_strlit("cdv-style");
        reveal_strlit("cdv-script");
        reveal_strlit("<style id=\"cdv-style\">");
        reveal_strlit("</style>");
        reveal_strlit("<script id=\"cdv-script\">");
        reveal_strlit("</script>");
        reveal_strlit("<!-- CDV: injected -->\n");
        reveal_strlit("<!-- CDV: injected -->");
    }
    let v = to_char_vec(content);
    let ks = to_char_vec("cdv-style");
    let kc = to_char_vec("cdv-script");
    let has_style_key = find_from(&v, &ks, 0).is_some();
    let has_script_key = find_from(&v, &kc, 0).is_some();
    if !has_style_key && !has_script_key {
        return None;
    }
    let c1 = strip_block(content, "<style id=\"cdv-style\">", "</style>");
    let c2 = strip_block(c1.as_str(), "<script id=\"cdv-script\">", "</script>");
    let c3 = remove_occurrences(c2.as_str(), "<!-- CDV: injected -->\n");
    let c4 = remove_occurrences(c3.as_str(), "<!-- CDV: injected -->");
    if crate::text::str_eq(c4.as_str(), content) {
        None
    } else {
        Some(c4)
    }
}

/// File names never rewritten in place: generated search, settings and
/// source-listing pages, and the generated overview page itself.  The
/// reserved names are ASCII, and the comparison deliberately folds ASCII
/// case only: a name spelled with a character that only a Unicode case
/// fold would map into one of these is not treated as reserved.
pub open spec fn reserved_file_name(name: Seq<char>) -> bool {
    ||| crate::text::eq_ignore_case(name, "search.html"@)
    ||| crate::text::eq_ignore_case(name, "settings.html"@)
    ||| crate::text::eq_ignore_case(name, "source-src.html"@)
    ||| crate::text::eq_ignore_case(name, "cdv-crate-overview.html"@)
}

/// Whether a file name, compared without regard to ASCII case, is one that
/// the bulk transform must leave untouched.
pub fn should_skip_file(name: &str) -> (r: bool)
    ensures
        r == reserved_file_name(name@),
{
    let v = to_char_vec(name);
    if crate::text::eq_ci(&v, "search.html") {
        return true;
    }
    if crate::text::eq_ci(&v, "settings.html") {
        return true;
    }
    if crate::text::eq_ci(&v, "source-src.html") {
        return true;
    }
    crate::text::eq_ci(&v, "cdv-crate-overview.html")
}


/// Concrete structure of the head insertion block: where the style tags and
/// the marker sit inside it, and that no other searched tag occurs in it.
proof fn lemma_head_insert_facts()
    ensures
        head_insert().len() == 87,
        marker().len() == 22,
        marker_nl().len() == 23,
        style_open().len() == 22,
        style_close().len() == 8,
        script_open().len() == 24,
        script_close().len() == 9,
        head_close().len() == 7,
        body_close().len() == 7,
        style_key().len() == 9,
        script_key().len() == 10,
        find_from_spec(head_insert(), style_open(), 0) == Some(23int),
        find_from_spec(head_insert(), style_close(), 0) == Some(78int),
        head_insert()[86] == '\n',
        matches_at(head_insert(), marker_nl(), 0),
        matches_at(head_insert(), marker(), 0),
        !contains_seq(head_insert(), script_open()),
        !contains_seq(head_insert(), body_close()),
        matches_at(style_open(), style_key(), 11),
        matches_at(marker_nl(), marker(), 0),
{
    reveal_strlit("<!-- CDV: injected -->\n<style id=\"cdv-style\">\n.cdv-bar{position:sticky;top:0}\n</style>\n");
    reveal_strlit("<!-- CDV: injected -->");
    reveal_strlit("<!-- CDV: injected -->\n");
    reveal_strlit("<style id=\"cdv-style\">");
    reveal_strlit("</style>");
    reveal_strlit("<script id=\"cdv-script\">");
    reveal_strlit("</script>");
    reveal_strlit("</head>");
    reveal_strlit("</body>");
    reveal_strlit("cdv-style");
    reveal_strlit("cdv-script");
    assert(find_from_spec(head_insert(), style_open(), 0) == Some(23int)) by {
        reveal_with_fuel(find_from_spec, 30);
        reveal_with_fuel(match_chars_from, 30);
    }
    assert(find_from_spec(head_insert(), style_close(), 0) == Some(78int)) by {
        reveal_with_fuel(find_from_spec, 85);
        reveal_with_fuel(match_chars_from, 12);
    }
    assert(find_from_spec(head_insert(), script_open(), 0) is None) by {
        reveal_with_fuel(find_from_spec, 90);
        reveal_with_fuel(match_chars_from, 30);
    }
    assert(find_from_spec(head_insert(), body_close(), 0) is None) by {
        reveal_with_fuel(find_from_spec, 90);
        reveal_with_fuel(match_chars_from, 12);
    }
    assert(matches_at(head_insert(), marker_nl(), 0)) by {
        reveal_with_fuel(match_chars_from, 30);
    }
    assert(matches_at(head_insert(), marker(), 0)) by {
        reveal_with_fuel(match_chars_from, 30);
    }
    assert(matches_at(style_open(), style_key(), 11)) by {
        reveal_with_fuel(match_chars_from, 12);
    }
    assert(matches_at(marker_nl(), marker(), 0)) by {
        reveal_with_fuel(match_chars_from, 30);
    }
}

/// Concrete structure of the body insertion block: where the script tags
/// sit inside it, and that no other searched tag occurs in it.
proof fn lemma_body_insert_facts()
    ensures
        body_insert().len() == 68,
        find_from_spec(body_insert(), script_open(), 0) == Some(0int),
        find_from_spec(body_insert(), script_close(), 0) == Some(58int),
        body_insert()[67] == '\n',
        !contains_seq(body_insert(), style_open()),
        !contains_seq(body_insert(), body_close()),
        !contains_seq(body_insert(), marker()),
        matches_at(script_open(), script_key(), 12),
{
    reveal_strlit("<script id=\"cdv-script\">\nconsole.log('cdv assets ready');\n</script>\n");
    reveal_strlit("<!-- CDV: injected -->");
    reveal_strlit("<style id=\"cdv-style\">");
    reveal_strlit("<script id=\"cdv-script\">");
    reveal_strlit("</script>");
    reveal_strlit("</body>");
    reveal_strlit("cdv-script");
    assert(find_from_spec(body_insert(), script_open(), 0) == Some(0int)) by {
        reveal_with_fuel(find_from_spec, 5);
        reveal_with_fuel(match_chars_from, 30);
    }
    assert(find_from_spec(body_insert(), script_close(), 0) == Some(58int)) by {
        reveal_with_fuel(find_from_spec, 65);
        reveal_with_fuel(match_chars_from, 12);
    }
    assert(find_from_spec(body_insert(), style_open(), 0) is None) by {
        reveal_with_fuel(find_from_spec, 70);
        reveal_with_fuel(match_chars_from, 30);
    }
    assert(find_from_spec(body_insert(), body_close(), 0) is None) by {
        reveal_with_fuel(find_from_spec, 70);
        reveal_with_fuel(match_chars_from, 12);
    }
    assert(find_from_spec(body_insert(), marker(), 0) is None) by {
        reveal_with_fuel(find_from_spec, 55);
        reveal_with_fuel(match_chars_from, 25);
    }
    assert(matches_at(script_open(), script_key(), 12)) by {
        reveal_with_fuel(match_chars_from, 12);
    }
}

/// None of the searched patterns can straddle a boundary of an inserted
/// block: no proper suffix of a pattern opens a block and no proper prefix
/// of a pattern closes one.
proof fn lemma_crossing_facts()
    ensures
        crate::text::no_suffix_prefix(style_open(), head_insert()),
        crate::text::no_suffix_prefix(style_open(), body_insert()),
        crate::text::no_prefix_suffix(style_open(), body_insert()),
        crate::text::no_suffix_prefix(body_close(), head_insert()),
        crate::text::no_prefix_suffix(body_close(), head_insert()),
        crate::text::no_suffix_prefix(script_open(), marker_nl()),
        crate::text::no_prefix_suffix(script_open(), marker_nl()),
        crate::text::no_suffix_prefix(script_open(), body_insert()),
        crate::text::no_suffix_prefix(marker_nl(), marker_nl()),
{
    reveal_strlit("<!-- CDV: injected -->\n<style id=\"cdv-style\">\n.cdv-bar{position:sticky;top:0}\n</style>\n");
    reveal_strlit("<script id=\"cdv-script\">\nconsole.log('cdv assets ready');\n</script>\n");
    reveal_strlit("<!-- CDV: injected -->\n");
    reveal_strlit("<style id=\"cdv-style\">");
    reveal_strlit("<script id=\"cdv-script\">");
    reveal_strlit("</body>");
    assert(crate::text::no_suffix_prefix(style_open(), head_insert())) by {
        reveal_with_fuel(crate::text::no_suffix_prefix_from, 30);
        reveal_with_fuel(match_chars_from, 30);
    }
    assert(crate::text::no_suffix_prefix(style_open(), body_insert())) by {
        reveal_with_fuel(crate::text::no_suffix_prefix_from, 30);
        reveal_with_fuel(match_chars_from, 30);
    }
    assert(crate::text::no_prefix_suffix(style_open(), body_insert())) by {
        reveal_with_fuel(crate::text::no_prefix_suffix_upto, 30);
        reveal_with_fuel(match_chars_from, 30);
    }
    assert(crate::text::no_suffix_prefix(body_close(), head_insert())) by {
        reveal_with_fuel(crate::text::no_suffix_prefix_from, 10);
        reveal_with_fuel(match_chars_from, 10);
    }
    assert(crate::text::no_prefix_suffix(body_close(), head_insert())) by {
        reveal_with_fuel(crate::text::no_prefix_suffix_upto, 10);
        reveal_with_fuel(match_chars_from, 10);
    }
    assert(crate::text::no_suffix_prefix(script_open(), marker_nl())) by {
        reveal_with_fuel(crate::text::no_suffix_prefix_from, 30);
        reveal_with_fuel(match_chars_from, 30);
    }
    assert(crate::text::no_prefix_suffix(script_open(), marker_nl())) by {
        reveal_with_fuel(crate::text::no_prefix_suffix_upto, 30);
        reveal_with_fuel(match_chars_from, 30);
    }
    assert(crate::text::no_suffix_prefix(script_open(), body_insert())) by {
        reveal_with_fuel(crate::text::no_suffix_prefix_from, 30);
        reveal_with_fuel(match_chars_from, 30);
    }
    assert(crate::text::no_suffix_prefix(marker_nl(), marker_nl())) by {
        reveal_with_fuel(crate::text::no_suffix_prefix_from, 30);
        reveal_with_fuel(match_chars_from, 30);
    }
}


/// Removing a pattern with exactly one occurrence, flanked by text free of
/// it, keeps the flanks and drops the occurrence.
proof fn lemma_remove_all_single(u: Seq<char>, p: Seq<char>, v: Seq<char>)
    requires
        p.len() >= 1,
        !contains_seq(u, p),
        crate::text::no_suffix_prefix(p, p),
        !contains_seq(v, p),
    ensures
        remove_all(u + p + v, p) == u.add(v),
{
    let s = u + p + v;
    assert(s =~= u.add(p.add(v)));
    crate::text::lemma_match_chars_iff(p, p, 0, 0);
    assert(matches_at(p, p, 0));
    crate::text::lemma_matches_left(p, v, p, 0);
    crate::text::lemma_matches_right(u, p.add(v), p, 0);
    assert(matches_at(s, p, u.len() as int));
    assert forall|q: int| 0 <= q < u.len() implies !matches_at(s, p, q) by {
        if matches_at(s, p, q) {
            crate::text::lemma_matches_split(u, p.add(v), p, q);
            if q + p.len() <= u.len() {
                crate::text::lemma_contains_iff(u, p);
            } else {
                crate::text::lemma_no_crossing_into(u, p, v, p);
            }
        }
    }
    crate::text::lemma_find_from_exact(s, p, 0, u.len() as int);
    lemma_remove_all_step(s, p, u.len() as int);
    assert(s.subrange(0, u.len() as int) =~= u);
    assert(s.skip(u.len() as int + p.len() as int) =~= v);
    lemma_remove_all_free(v, p);
}

/// Removing the marker comment from text whose only trace of enhancement is
/// one marker-plus-newline restores the surrounding text exactly.
proof fn lemma_remove_marker(xa: Seq<char>, xb: Seq<char>)
    requires
        !contains_seq(xa.add(xb), marker()),
    ensures
        remove_all(remove_all(xa + marker_nl() + xb, marker_nl()), marker()) == xa.add(xb),
{
    lemma_head_insert_facts();
    lemma_crossing_facts();
    assert(!contains_seq(xa, marker())) by {
        crate::text::lemma_contains_iff(xa, marker());
        crate::text::lemma_contains_iff(xa.add(xb), marker());
        if contains_seq(xa, marker()) {
            let i = choose|i: int| matches_at(xa, marker(), i);
            crate::text::lemma_matches_left(xa, xb, marker(), i);
        }
    }
    assert(!contains_seq(xb, marker())) by {
        crate::text::lemma_contains_iff(xb, marker());
        crate::text::lemma_contains_iff(xa.add(xb), marker());
        if contains_seq(xb, marker()) {
            let i = choose|i: int| matches_at(xb, marker(), i);
            crate::text::lemma_matches_right(xa, xb, marker(), i);
        }
    }
    assert(!contains_seq(xa, marker_nl())) by {
        crate::text::lemma_contains_iff(xa, marker_nl());
        crate::text::lemma_contains_iff(xa, marker());
        if contains_seq(xa, marker_nl()) {
            let i = choose|i: int| matches_at(xa, marker_nl(), i);
            crate::text::lemma_occurrence_of_part(xa, marker_nl(), marker(), 0, i);
        }
    }
    assert(!contains_seq(xb, marker_nl())) by {
        crate::text::lemma_contains_iff(xb, marker_nl());
        crate::text::lemma_contains_iff(xb, marker());
        if contains_seq(xb, marker_nl()) {
            let i = choose|i: int| matches_at(xb, marker_nl(), i);
            crate::text::lemma_occurrence_of_part(xb, marker_nl(), marker(), 0, i);
        }
    }
    lemma_remove_all_single(xa, marker_nl(), xb);
    lemma_remove_all_free(xa.add(xb), marker());
}

/// Removing the style block from text holding one head insertion removes
/// the style tags and payload and leaves the marker comment behind.
proof fn lemma_remove_style(u: Seq<char>, w: Seq<char>)
    requires
        !contains_seq(u, style_open()),
    ensures
        remove_block(u + head_insert() + w, style_open(), style_close()) == u + marker_nl() + w,
{
    lemma_head_insert_facts();
    lemma_crossing_facts();
    let hi = head_insert();
    let s = u + hi + w;
    assert(s =~= u.add(hi.add(w)));
    let t = u.len() as int + 23;
    crate::text::lemma_find_from_props(hi, style_open(), 0);
    crate::text::lemma_matches_left(hi, w, style_open(), 23);
    crate::text::lemma_matches_right(u, hi.add(w), style_open(), 23);
    assert(matches_at(s, style_open(), t));
    assert forall|q: int| 0 <= q < t implies !matches_at(s, style_open(), q) by {
        if matches_at(s, style_open(), q) {
            crate::text::lemma_matches_split(u, hi.add(w), style_open(), q);
            if q + style_open().len() <= u.len() {
                crate::text::lemma_contains_iff(u, style_open());
            } else if q >= u.len() {
                crate::text::lemma_matches_split(hi, w, style_open(), q - u.len());
            } else {
                crate::text::lemma_no_crossing_into(u, hi, w, style_open());
            }
        }
    }
    crate::text::lemma_find_from_exact(s, style_open(), 0, t);
    let t2 = u.len() as int + 78;
    crate::text::lemma_find_from_props(hi, style_close(), 0);
    crate::text::lemma_matches_left(hi, w, style_close(), 78);
    crate::text::lemma_matches_right(u, hi.add(w), style_close(), 78);
    assert(matches_at(s, style_close(), t2));
    assert forall|q: int| t <= q < t2 implies !matches_at(s, style_close(), q) by {
        if matches_at(s, style_close(), q) {
            crate::text::lemma_matches_split(u, hi.add(w), style_close(), q);
            crate::text::lemma_matches_split(hi, w, style_close(), q - u.len());
        }
    }
    crate::text::lemma_find_from_exact(s, style_close(), t, t2);
    let end = t2 + 8;
    assert(s[end] == '\n');
    crate::text::lemma_matches_at_subrange(hi, marker_nl(), 0);
    assert(hi.subrange(0, 23) == marker_nl());
    assert(s.subrange(0, t) =~= u + marker_nl());
    assert(s.subrange(end + 1, s.len() as int) =~= w);
    assert(s.subrange(0, t) + s.subrange(end + 1, s.len() as int) =~= u + marker_nl() + w);
}

/// Removing the script block from text holding one body insertion removes
/// the insertion entirely.
proof fn lemma_remove_script(u: Seq<char>, w: Seq<char>)
    requires
        !contains_seq(u, script_open()),
    ensures
        remove_block(u + body_insert() + w, script_open(), script_close()) == u.add(w),
{
    lemma_head_insert_facts();
    lemma_body_insert_facts();
    lemma_crossing_facts();
    let bi = body_insert();
    let s = u + bi + w;
    assert(s =~= u.add(bi.add(w)));
    let t = u.len() as int;
    crate::text::lemma_find_from_props(bi, script_open(), 0);
    crate::text::lemma_matches_left(bi, w, script_open(), 0);
    crate::text::lemma_matches_right(u, bi.add(w), script_open(), 0);
    assert(matches_at(s, script_open(), t));
    assert forall|q: int| 0 <= q < t implies !matches_at(s, script_open(), q) by {
        if matches_at(s, script_open(), q) {
            crate::text::lemma_matches_split(u, bi.add(w), script_open(), q);
            if q + script_open().len() <= u.len() {
                crate::text::lemma_contains_iff(u, script_open());
            } else {
                crate::text::lemma_no_crossing_into(u, bi, w, script_open());
            }
        }
    }
    crate::text::lemma_find_from_exact(s, script_open(), 0, t);
    let t2 = u.len() as int + 58;
    crate::text::lemma_find_from_props(bi, script_close(), 0);
    crate::text::lemma_matches_left(bi, w, script_close(), 58);
    crate::text::lemma_matches_right(u, bi.add(w), script_close(), 58);
    assert(matches_at(s, script_close(), t2));
    assert forall|q: int| t <= q < t2 implies !matches_at(s, script_close(), q) by {
        if matches_at(s, script_close(), q) {
            crate::text::lemma_matches_split(u, bi.add(w), script_close(), q);
            crate::text::lemma_matches_split(bi, w, script_close(), q - u.len());
        }
    }
    crate::text::lemma_find_from_exact(s, script_close(), t, t2);
    let end = t2 + 9;
    assert(s[end] == '\n');
    assert(s.subrange(0, t) =~= u);
    assert(s.subrange(end + 1, s.len() as int) =~= w);
}


/// A document free of the enhancement markers is also free of the exact
/// tags whose ids contain them.
proof fn lemma_unmarked_free(x: Seq<char>)
    requires
        !contains_seq(x, style_key()),
        !contains_seq(x, script_key()),
    ensures
        !contains_seq(x, style_open()),
        !contains_seq(x, script_open()),
{
    lemma_head_insert_facts();
    lemma_body_insert_facts();
    crate::text::lemma_contains_iff(x, style_open());
    crate::text::lemma_contains_iff(x, style_key());
    if contains_seq(x, style_open()) {
        let i = choose|i: int| matches_at(x, style_open(), i);
        crate::text::lemma_occurrence_of_part(x, style_open(), style_key(), 11, i);
    }
    crate::text::lemma_contains_iff(x, script_open());
    crate::text::lemma_contains_iff(x, script_key());
    if contains_seq(x, script_open()) {
        let i = choose|i: int| matches_at(x, script_open(), i);
        crate::text::lemma_occurrence_of_part(x, script_open(), script_key(), 12, i);
    }
}

/// The style tag sits inside every head insertion, so a text holding one
/// contains the style id marker.
proof fn lemma_contains_style_key(u: Seq<char>, w: Seq<char>)
    ensures
        contains_seq(u + head_insert() + w, style_key()),
{
    lemma_head_insert_facts();
    let s = u + head_insert() + w;
    crate::text::lemma_find_from_props(head_insert(), style_open(), 0);
    crate::text::lemma_occurrence_of_part(head_insert(), style_open(), style_key(), 11, 23);
    crate::text::lemma_matches_left(head_insert(), w, style_key(), 34);
    crate::text::lemma_matches_right(u, head_insert().add(w), style_key(), 34);
    assert(s =~= u.add(head_insert().add(w)));
    crate::text::lemma_contains_iff(s, style_key());
}

/// The script tag sits inside every body insertion, so a text holding one
/// contains the script id marker.
proof fn lemma_contains_script_key(u: Seq<char>, w: Seq<char>)
    ensures
        contains_seq(u + body_insert() + w, script_key()),
{
    lemma_body_insert_facts();
    let s = u + body_insert() + w;
    crate::text::lemma_find_from_props(body_insert(), script_open(), 0);
    crate::text::lemma_occurrence_of_part(body_insert(), script_open(), script_key(), 12, 0);
    crate::text::lemma_matches_left(body_insert(), w, script_key(), 12);
    crate::text::lemma_matches_right(u, body_insert().add(w), script_key(), 12);
    assert(s =~= u.add(body_insert().add(w)));
    crate::text::lemma_contains_iff(s, script_key());
}

/// The marker comment free text around one body insertion stays free of the
/// script tag after composition.
proof fn lemma_free_around_body_insert(u: Seq<char>, v: Seq<char>, p: Seq<char>)
    requires
        !contains_seq(u, p),
        !contains_seq(body_insert(), p),
        !contains_seq(v, p),
        crate::text::no_suffix_prefix(p, body_insert()),
        crate::text::no_prefix_suffix(p, body_insert()),
        p.len() <= body_insert().len() + 1,
    ensures
        !contains_seq(u + body_insert() + v, p),
{
    crate::text::lemma_block_no_crossing_in(u, body_insert(), p);
    crate::text::lemma_free_concat(u, body_insert(), p);
    crate::text::lemma_no_crossing_out_of(u, body_insert(), v, p);
    crate::text::lemma_free_concat(u.add(body_insert()), v, p);
    assert(u + body_insert() + v =~= u.add(body_insert()).add(v));
}

/// The script tag occurs nowhere in text of the form `u + marker_nl + v`
/// whose flanks are free of it.
proof fn lemma_script_open_free_marker(u: Seq<char>, v: Seq<char>)
    requires
        !contains_seq(u, script_open()),
        !contains_seq(v, script_open()),
    ensures
        !contains_seq(u + marker_nl() + v, script_open()),
{
    lemma_head_insert_facts();
    lemma_crossing_facts();
    assert(!contains_seq(marker_nl(), script_open())) by {
        crate::text::lemma_contains_iff(marker_nl(), script_open());
        if contains_seq(marker_nl(), script_open()) {
            let i = choose|i: int| matches_at(marker_nl(), script_open(), i);
        }
    }
    crate::text::lemma_block_no_crossing_in(u, marker_nl(), script_open());
    crate::text::lemma_free_concat(u, marker_nl(), script_open());
    crate::text::lemma_no_crossing_out_of(u, marker_nl(), v, script_open());
    crate::text::lemma_free_concat(u.add(marker_nl()), v, script_open());
    assert(u + marker_nl() + v =~= u.add(marker_nl()).add(v));
}

/// Reverting a document enhanced at a head anchor and a later body anchor
/// restores it exactly.
proof fn lemma_revert_shape_head_body(x: Seq<char>, h: int, b: int)
    requires
        !contains_seq(x, marker()),
        !contains_seq(x, style_key()),
        !contains_seq(x, script_key()),
        0 <= h <= b <= x.len(),
    ensures
        revert_spec(
            x.subrange(0, h) + head_insert() + x.subrange(h, b) + body_insert() + x.subrange(
                b,
                x.len() as int,
            ),
        ) == Some(x),
{
    lemma_head_insert_facts();
    lemma_body_insert_facts();
    lemma_crossing_facts();
    lemma_unmarked_free(x);
    let u = x.subrange(0, h);
    let v1 = x.subrange(h, b);
    let v2 = x.subrange(b, x.len() as int);
    let y = u + head_insert() + v1 + body_insert() + v2;
    crate::text::lemma_subrange_free(x, style_open(), 0, h);
    crate::text::lemma_subrange_free(x, script_open(), 0, h);
    crate::text::lemma_subrange_free(x, script_open(), h, b);
    crate::text::lemma_subrange_free(x, script_open(), b, x.len() as int);
    crate::text::lemma_subrange_free(x, marker(), 0, h);
    // the style block is removed first, leaving the marker comment
    let w = v1 + body_insert() + v2;
    assert(y =~= u + head_insert() + w);
    lemma_remove_style(u, w);
    let c1 = remove_block(y, style_open(), style_close());
    assert(c1 == u + marker_nl() + w);
    // the script block is removed next
    let u2 = u + marker_nl() + v1;
    assert(c1 =~= u2 + body_insert() + v2);
    assert(!contains_seq(u2, script_open())) by {
        lemma_script_open_free_marker(u, v1, );
    }
    lemma_remove_script(u2, v2);
    let c2 = remove_block(c1, script_open(), script_close());
    assert(c2 == u2.add(v2));
    // the marker comment is removed last
    assert(c2 =~= u + marker_nl() + (v1 + v2)) by {
        assert(u2.add(v2) =~= u + marker_nl() + (v1 + v2));
    }
    assert(u.add(v1.add(v2)) =~= x);
    assert(v1 + v2 =~= v1.add(v2));
    lemma_remove_marker(u, v1.add(v2));
    let c3 = remove_all(remove_all(c2, marker_nl()), marker());
    assert(c3 == x);
    // the result differs from the enhanced text, so revert reports it
    lemma_contains_style_key(u, w);
    assert(y.len() == x.len() + 155);
    assert(c3 != y);
}

/// Reverting a document enhanced at a body anchor and a later head anchor
/// restores it exactly.
proof fn lemma_revert_shape_body_head(x: Seq<char>, b: int, h: int)
    requires
        !contains_seq(x, marker()),
        !contains_seq(x, style_key()),
        !contains_seq(x, script_key()),
        0 <= b <= h <= x.len(),
    ensures
        revert_spec(
            x.subrange(0, b) + body_insert() + x.subrange(b, h) + head_insert() + x.subrange(
                h,
                x.len() as int,
            ),
        ) == Some(x),
{
    lemma_head_insert_facts();
    lemma_body_insert_facts();
    lemma_crossing_facts();
    lemma_unmarked_free(x);
    let u1 = x.subrange(0, b);
    let u2 = x.subrange(b, h);
    let v = x.subrange(h, x.len() as int);
    let y = u1 + body_insert() + u2 + head_insert() + v;
    crate::text::lemma_subrange_free(x, style_open(), 0, b);
    crate::text::lemma_subrange_free(x, style_open(), b, h);
    crate::text::lemma_subrange_free(x, script_open(), 0, b);
    crate::text::lemma_subrange_free(x, marker(), 0, b);
    // the style block inside the head insertion is removed first
    let uf = u1 + body_insert() + u2;
    assert(!contains_seq(uf, style_open())) by {
        lemma_free_around_body_insert(u1, u2, style_open());
    }
    assert(y =~= uf + head_insert() + v);
    lemma_remove_style(uf, v);
    let c1 = remove_block(y, style_open(), style_close());
    assert(c1 == uf + marker_nl() + v);
    // the script block is removed next
    let w2 = u2 + marker_nl() + v;
    assert(c1 =~= u1 + body_insert() + w2) by {
        assert(uf + marker_nl() + v =~= u1 + body_insert() + (u2 + marker_nl() + v));
    }
    lemma_remove_script(u1, w2);
    let c2 = remove_block(c1, script_open(), script_close());
    assert(c2 == u1.add(w2));
    // the marker comment is removed last
    let xa = u1 + u2;
    assert(c2 =~= xa + marker_nl() + v) by {
        assert(u1.add(u2 + marker_nl() + v) =~= (u1 + u2) + marker_nl() + v);
    }
    assert(xa.add(v) =~= x);
    lemma_remove_marker(xa, v);
    let c3 = remove_all(remove_all(c2, marker_nl()), marker());
    assert(c3 == x);
    lemma_contains_style_key(uf, v);
    assert(contains_seq(y, style_key())) by {
        assert(uf + head_insert() + v =~= y);
    }
    assert(y.len() == x.len() + 155);
    assert(c3 != y);
}

/// Reverting a document enhanced at a head anchor only restores it exactly.
proof fn lemma_revert_shape_head_only(x: Seq<char>, h: int)
    requires
        !contains_seq(x, marker()),
        !contains_seq(x, style_key()),
        !contains_seq(x, script_key()),
        0 <= h <= x.len(),
    ensures
        revert_spec(x.subrange(0, h) + head_insert() + x.subrange(h, x.len() as int)) == Some(x),
{
    lemma_head_insert_facts();
    lemma_body_insert_facts();
    lemma_crossing_facts();
    lemma_unmarked_free(x);
    let u = x.subrange(0, h);
    let v = x.subrange(h, x.len() as int);
    let y = u + head_insert() + v;
    crate::text::lemma_subrange_free(x, style_open(), 0, h);
    crate::text::lemma_subrange_free(x, script_open(), 0, h);
    crate::text::lemma_subrange_free(x, script_open(), h, x.len() as int);
    crate::text::lemma_subrange_free(x, marker(), 0, h);
    lemma_remove_style(u, v);
    let c1 = remove_block(y, style_open(), style_close());
    assert(c1 == u + marker_nl() + v);
    // no script block is present, so the second removal changes nothing
    assert(!contains_seq(c1, script_open())) by {
        lemma_script_open_free_marker(u, v);
    }
    let c2 = remove_block(c1, script_open(), script_close());
    assert(c2 == c1);
    assert(c2 =~= u + marker_nl() + v);
    assert(u.add(v) =~= x);
    lemma_remove_marker(u, v);
    let c3 = remove_all(remove_all(c2, marker_nl()), marker());
    assert(c3 == x);
    lemma_contains_style_key(u, v);
    assert(y.len() == x.len() + 87);
    assert(c3 != y);
}

/// Reverting a document enhanced at a body anchor only restores it exactly.
proof fn lemma_revert_shape_body_only(x: Seq<char>, b: int)
    requires
        !contains_seq(x, marker()),
        !contains_seq(x, style_key()),
        !contains_seq(x, script_key()),
        0 <= b <= x.len(),
    ensures
        revert_spec(x.subrange(0, b) + body_insert() + x.subrange(b, x.len() as int)) == Some(x),
{
    lemma_head_insert_facts();
    lemma_body_insert_facts();
    lemma_crossing_facts();
    lemma_unmarked_free(x);
    let u = x.subrange(0, b);
    let v = x.subrange(b, x.len() as int);
    let y = u + body_insert() + v;
    crate::text::lemma_subrange_free(x, style_open(), 0, b);
    crate::text::lemma_subrange_free(x, style_open(), b, x.len() as int);
    crate::text::lemma_subrange_free(x, script_open(), 0, b);
    crate::text::lemma_subrange_free(x, marker(), 0, b);
    crate::text::lemma_subrange_free(x, marker(), b, x.len() as int);
    // no style block is present, so the first removal changes nothing
    assert(!contains_seq(y, style_open())) by {
        lemma_free_around_body_insert(u, v, style_open());
    }
    let c1 = remove_block(y, style_open(), style_close());
    assert(c1 == y);
    lemma_remove_script(u, v);
    let c2 = remove_block(c1, script_open(), script_close());
    assert(c2 == u.add(v));
    assert(u.add(v) =~= x);
    // no marker comment is present either
    assert(!contains_seq(x, marker_nl())) by {
        lemma_head_insert_facts();
        crate::text::lemma_contains_iff(x, marker_nl());
        crate::text::lemma_contains_iff(x, marker());
        if contains_seq(x, marker_nl()) {
            let i = choose|i: int| matches_at(x, marker_nl(), i);
            crate::text::lemma_occurrence_of_part(x, marker_nl(), marker(), 0, i);
        }
    }
    lemma_remove_all_free(x, marker_nl());
    lemma_remove_all_free(x, marker());
    let c3 = remove_all(remove_all(c2, marker_nl()), marker());
    assert(c3 == x);
    lemma_contains_script_key(u, v);
    assert(y.len() == x.len() + 68);
    assert(c3 != y);
}


/// The position the body insertion goes to in a head-inserted document lies
/// entirely before or entirely after the head insertion block.
proof fn lemma_classify_body_anchor(x: Seq<char>, h: int, b1: int)
    requires
        0 <= h,
        h + head_close().len() <= x.len(),
        matches_at(
            x.subrange(0, h) + head_insert() + x.subrange(h, x.len() as int),
            body_close(),
            b1,
        ),
    ensures
        b1 + body_close().len() <= h || h + head_insert().len() <= b1,
{
    lemma_head_insert_facts();
    lemma_crossing_facts();
    let u = x.subrange(0, h);
    let rest = head_insert().add(x.subrange(h, x.len() as int));
    let c1 = x.subrange(0, h) + head_insert() + x.subrange(h, x.len() as int);
    assert(c1 =~= u.add(rest));
    crate::text::lemma_matches_split(u, rest, body_close(), b1);
    if b1 + body_close().len() <= u.len() {
    } else if b1 >= u.len() {
        crate::text::lemma_matches_split(
            head_insert(),
            x.subrange(h, x.len() as int),
            body_close(),
            b1 - h,
        );
        if b1 - h + body_close().len() <= head_insert().len() {
            crate::text::lemma_contains_iff(head_insert(), body_close());
        } else if b1 - h < head_insert().len() {
            crate::text::lemma_block_no_crossing_out(
                head_insert(),
                x.subrange(h, x.len() as int),
                body_close(),
            );
        }
    } else {
        crate::text::lemma_no_crossing_into(
            u,
            head_insert(),
            x.subrange(h, x.len() as int),
            body_close(),
        );
    }
}

/// Round trip: enhancing a document that carries no marker and no injected
/// block id, then reverting the result, restores it byte for byte; and on
/// such a document that `inject` leaves alone, `revert` reports no change.
pub proof fn lemma_inject_revert_round_trip(x: Seq<char>)
    requires
        !contains_seq(x, marker()),
        !contains_seq(x, style_key()),
        !contains_seq(x, script_key()),
    ensures
        match inject_spec(x) {
            Some(y) => revert_spec(y) == Some(x),
            None => revert_spec(x) is None,
        },
{
    lemma_head_insert_facts();
    lemma_body_insert_facts();
    match rfind_spec(x, head_close()) {
        Some(h) => {
            crate::text::lemma_rfind_props(x, head_close());
            let c1 = x.subrange(0, h) + head_insert() + x.subrange(h, x.len() as int);
            assert(head_inserted(x) == c1);
            match rfind_spec(c1, body_close()) {
                Some(b1) => {
                    crate::text::lemma_rfind_props(c1, body_close());
                    lemma_classify_body_anchor(x, h, b1);
                    let y = c1.subrange(0, b1) + body_insert() + c1.subrange(b1, c1.len() as int);
                    assert(body_inserted(c1) == y);
                    if b1 + body_close().len() <= h {
                        assert(c1.subrange(0, b1) =~= x.subrange(0, b1));
                        assert(c1.subrange(b1, c1.len() as int) =~= x.subrange(b1, h)
                            + head_insert() + x.subrange(h, x.len() as int));
                        lemma_revert_shape_body_head(x, b1, h);
                        assert(y =~= x.subrange(0, b1) + body_insert() + x.subrange(b1, h)
                            + head_insert() + x.subrange(h, x.len() as int));
                    } else {
                        let b = b1 - head_insert().len();
                        assert(h <= b <= x.len());
                        assert(c1.subrange(0, b1) =~= x.subrange(0, h) + head_insert()
                            + x.subrange(h, b));
                        assert(c1.subrange(b1, c1.len() as int) =~= x.subrange(b, x.len() as int));
                        lemma_revert_shape_head_body(x, h, b);
                        assert(y =~= x.subrange(0, h) + head_insert() + x.subrange(h, b)
                            + body_insert() + x.subrange(b, x.len() as int));
                    }
                },
                None => {
                    lemma_revert_shape_head_only(x, h);
                    assert(body_inserted(c1) == c1);
                },
            }
        },
        None => {
            assert(head_inserted(x) == x);
            match rfind_spec(x, body_close()) {
                Some(b) => {
                    crate::text::lemma_rfind_props(x, body_close());
                    let y = x.subrange(0, b) + body_insert() + x.subrange(b, x.len() as int);
                    assert(body_inserted(x) == y);
                    lemma_revert_shape_body_only(x, b);
                },
                None => {
                },
            }
        },
    }
}

/// A document that does not carry the enhancement marker but offers a
/// head anchor is always enhanced, and the enhanced text carries the
/// marker.  This is what an HTML response shows: the text served for such
/// a document contains the marker, while the text it was built from is a
/// value the serving path never writes back.
pub proof fn lemma_inject_plants_marker(x: Seq<char>)
    requires
        !contains_seq(x, marker()),
        contains_seq(x, head_close()),
    ensures
        inject_spec(x) is Some,
        contains_seq(inject_spec(x)->Some_0, marker()),
{
    lemma_head_insert_facts();
    lemma_body_insert_facts();
    {
        crate::text::lemma_contains_iff(x, head_close());
        crate::text::lemma_rfind_props(x, head_close());
        let hv = rfind_spec(x, head_close());
        if hv is None {
            let i = choose|i: int| matches_at(x, head_close(), i);
            assert(false);
        }
        let h = hv->Some_0;
        let c1 = x.subrange(0, h) + head_insert() + x.subrange(h, x.len() as int);
        assert(head_inserted(x) == c1);
        // the marker comment sits at the head insertion point
        crate::text::lemma_matches_left(
            head_insert(),
            x.subrange(h, x.len() as int),
            marker(),
            0,
        );
        crate::text::lemma_matches_right(
            x.subrange(0, h),
            head_insert().add(x.subrange(h, x.len() as int)),
            marker(),
            0,
        );
        assert(c1 =~= x.subrange(0, h).add(head_insert().add(x.subrange(h, x.len() as int))));
        assert(matches_at(c1, marker(), h));
        match rfind_spec(c1, body_close()) {
            Some(b1) => {
                crate::text::lemma_rfind_props(c1, body_close());
                let y = c1.subrange(0, b1) + body_insert() + c1.subrange(b1, c1.len() as int);
                assert(body_inserted(c1) == y);
                lemma_classify_body_anchor(x, h, b1);
                // the marker occurrence survives the body insertion
                if b1 + body_close().len() <= h {
                    crate::text::lemma_matches_to_subrange(c1, marker(), b1, c1.len() as int, h);
                    crate::text::lemma_matches_right(
                        c1.subrange(0, b1) + body_insert(),
                        c1.subrange(b1, c1.len() as int),
                        marker(),
                        h - b1,
                    );
                    assert(y =~= (c1.subrange(0, b1) + body_insert()).add(
                        c1.subrange(b1, c1.len() as int),
                    ));
                    assert(matches_at(y, marker(), b1 + body_insert().len() + (h - b1)));
                } else {
                    crate::text::lemma_matches_to_subrange(c1, marker(), 0, b1, h);
                    crate::text::lemma_matches_left(
                        c1.subrange(0, b1),
                        body_insert().add(c1.subrange(b1, c1.len() as int)),
                        marker(),
                        h,
                    );
                    assert(y =~= c1.subrange(0, b1).add(
                        body_insert().add(c1.subrange(b1, c1.len() as int)),
                    ));
                    assert(matches_at(y, marker(), h));
                }
                crate::text::lemma_contains_iff(y, marker());
            },
            None => {
                assert(body_inserted(c1) == c1);
                crate::text::lemma_contains_iff(c1, marker());
            },
        }
    }
}

/// Idempotence: enhancing the result of a first enhancement is a no-op.
/// The law asks that the document carry the marker already, offer a head
/// anchor, or offer no body anchor: a head insertion plants the marker that
/// stops the second pass, while a body-only insertion does not.
pub proof fn lemma_inject_idempotent(x: Seq<char>)
    requires
        contains_seq(x, marker()) || contains_seq(x, head_close()) || !contains_seq(
            x,
            body_close(),
        ),
    ensures
        inject_spec(
            match inject_spec(x) {
                Some(y) => y,
                None => x,
            },
        ) is None,
{
    lemma_head_insert_facts();
    lemma_body_insert_facts();
    if contains_seq(x, marker()) {
    } else if contains_seq(x, head_close()) {
        lemma_inject_plants_marker(x);
    } else {
        // neither anchor: the first pass already returns `None`
        crate::text::lemma_rfind_props(x, head_close());
        crate::text::lemma_contains_iff(x, head_close());
        if rfind_spec(x, head_close()) is Some {
            let h = rfind_spec(x, head_close())->Some_0;
            assert(matches_at(x, head_close(), h));
        }
        crate::text::lemma_rfind_props(x, body_close());
        crate::text::lemma_contains_iff(x, body_close());
        if rfind_spec(x, body_close()) is Some {
            let b = rfind_spec(x, body_close())->Some_0;
            assert(matches_at(x, body_close(), b));
        }
        assert(head_inserted(x) == x);
    }
}

} // verus!
