//! The package catalog and the overview page rendered from it.
//!
//! The directory enumeration and the reads of each package's `index.html`
//! happen outside the library; they hand directory names and file text in.
//! This module classifies directory names, extracts a description and a
//! version from a package's index page, keeps the catalog ordered by
//! package name, and renders the catalog into the overview page.

use vstd::prelude::*;

use crate::text::find_from;
use crate::text::find_from_spec;
use crate::text::lex_le;
use crate::text::str_le;
use crate::text::replace_all;
use crate::text::rfind;
use crate::text::rfind_spec;
use crate::text::str_eq;
use crate::text::to_char_vec;
use crate::text::trim_spec;

verus! {

/// One documented package: its directory name, a human-readable
/// description, an optional version, and the page it links to.
#[derive(Debug, Clone)]
pub struct CrateInfo {
    pub name: String,
    pub description: String,
    pub version: Option<String>,
    pub path: String,
}

/// Directory names that are support material, never packages.
pub open spec fn excluded_dir_spec(name: Seq<char>) -> bool {
    ||| name == "static.files"@
    ||| name == "src"@
    ||| name == "implementors"@
    ||| name == "help.html"@
}

/// Whether a child directory of the document root is one of the fixed
/// support directories that never become catalog entries.
pub fn is_excluded_dir(name: &str) -> (r: bool)
    ensures
        r == excluded_dir_spec(name@),
{
    str_eq(name, "static.files") || str_eq(name, "src") || str_eq(name, "implementors") || str_eq(
        name,
        "help.html",
    )
}

/// Text kept when HTML tags are dropped: `<` enters tag state, `>` leaves
/// it, and characters outside tags are kept.
pub open spec fn strip_tags_spec(s: Seq<char>, in_tag: bool) -> Seq<char>
    decreases s.len(),
{
    if s.len() == 0 {
        Seq::empty()
    } else if s[0] == '<' {
        strip_tags_spec(s.skip(1), true)
    } else if s[0] == '>' {
        strip_tags_spec(s.skip(1), false)
    } else if !in_tag {
        seq![s[0]] + strip_tags_spec(s.skip(1), in_tag)
    } else {
        strip_tags_spec(s.skip(1), in_tag)
    }
}

/// The four entity forms decoded in extracted descriptions.
pub open spec fn decode_entities_spec(s: Seq<char>) -> Seq<char> {
    replace_all(
        replace_all(replace_all(replace_all(s, "&lt;"@, "<"@), "&gt;"@, ">"@), "&amp;"@, "&"@),
        "&quot;"@,
        "\""@,
    )
}

/// Tag stripping, entity decoding and trimming, in that order.
pub open spec fn strip_html_tags_spec(s: Seq<char>) -> Seq<char> {
    trim_spec(decode_entities_spec(strip_tags_spec(s, false)))
}

/// Drops HTML tags from a text, decodes the common entities and trims
/// surrounding whitespace.
pub fn strip_html_tags(html: &str) -> (r: String)
    ensures
        r@ == strip_html_tags_spec(html@),
{
    proof {
        reveal_strlit("&lt;");
        reveal_strlit("&gt;");
        reveal_strlit("&amp;");
        reveal_strlit("&quot;");
    }
    let v = to_char_vec(html);
    let n = v.len();
    let mut out = String::new();
    let mut in_tag = false;
    let mut i: usize = 0;
    proof {
        assert(html@.skip(0) =~= html@);
        assert(out@ + strip_tags_spec(html@, false) =~= strip_tags_spec(html@, false));
    }
    while i < n
        invariant
            n == html@.len(),
            v@ == html@,
            i <= n,
            strip_tags_spec(html@, false) == out@ + strip_tags_spec(html@.skip(i as int), in_tag),
        decreases n - i,
    {
        proof {
            assert(html@.skip(i as int).skip(1) =~= html@.skip(i + 1));
            assert(html@.skip(i as int)[0] == html@[i as int]);
        }
        let c = v[i];
        if c == '<' {
            in_tag = true;
        } else if c == '>' {
            in_tag = false;
        } else if !in_tag {
            out.append(html.substring_char(i, i + 1));
            proof {
                assert(html@.subrange(i as int, i + 1) =~= seq![html@[i as int]]);
            }
        }
        i = i + 1;
    }
    proof {
        assert(html@.skip(n as int) =~= Seq::<char>::empty());
    }
    let t1 = crate::text::replace_occurrences(out.as_str(), "&lt;", "<");
    let t2 = crate::text::replace_occurrences(t1.as_str(), "&gt;", ">");
    let t3 = crate::text::replace_occurrences(t2.as_str(), "&amp;", "&");
    let t4 = crate::text::replace_occurrences(t3.as_str(), "&quot;", "\"");
    crate::text::trim_str(t4.as_str())
}

/// The description drawn from a meta-description tag, when the page has a
/// complete one.
pub open spec fn meta_description_spec(h: Seq<char>) -> Option<Seq<char>> {
    let tag = "<meta name=\"description\" content=\""@;
    match find_from_spec(h, tag, 0) {
        Some(s0) => {
            let cs = s0 + tag.len();
            match find_from_spec(h, "\""@, cs) {
                Some(e) => Some(h.subrange(cs, e)),
                None => None,
            }
        },
        None => None,
    }
}

/// The description drawn from the first paragraph of the first doc block,
/// with tags stripped and entities decoded.
pub open spec fn docblock_description_spec(h: Seq<char>) -> Option<Seq<char>> {
    let open_div = "<div class=\"docblock\">"@;
    match find_from_spec(h, open_div, 0) {
        Some(d0) => {
            let cs = d0 + open_div.len();
            match find_from_spec(h, "<p>"@, cs) {
                Some(p0) => {
                    let ps = p0 + 3;
                    match find_from_spec(h, "</p>"@, ps) {
                        Some(pe) => Some(strip_html_tags_spec(h.subrange(ps, pe))),
                        None => None,
                    }
                },
                None => None,
            }
        },
        None => None,
    }
}

/// A page's description: the meta-description tag's content when complete,
/// else the first doc-block paragraph, else nothing.
pub open spec fn description_spec(h: Seq<char>) -> Option<Seq<char>> {
    match meta_description_spec(h) {
        Some(d) => Some(d),
        None => docblock_description_spec(h),
    }
}

/// Extracts a human-readable description from a package's index page.
pub fn extract_description(html: &str) -> (r: Option<String>)
    ensures
        match r {
            Some(d) => description_spec(html@) == Some(d@),
            None => description_spec(html@) is None,
        },
{
    let v = to_char_vec(html);
    let n = v.len();
    let meta_tag = "<meta name=\"description\" content=\"";
    let mt = to_char_vec(meta_tag);
    let quote = to_char_vec("\"");
    proof {
        reveal_strlit("<meta name=\"description\" content=\"");
        reveal_strlit("\"");
        reveal_strlit("<div class=\"docblock\">");
        reveal_strlit("<p>");
        reveal_strlit("</p>");
    }
    match find_from(&v, &mt, 0) {
        Some(s0) => {
            proof {
                crate::text::lemma_find_from_props(html@, mt@, 0);
            }
            let cs = s0 + mt.len();
            match find_from(&v, &quote, cs) {
                Some(e) => {
                    proof {
                        crate::text::lemma_find_from_props(html@, quote@, cs as int);
                    }
                    return Some(html.substring_char(cs, e).to_owned());
                },
                None => {},
            }
        },
        None => {},
    }
    let od = to_char_vec("<div class=\"docblock\">");
    let pt = to_char_vec("<p>");
    let pc = to_char_vec("</p>");
    match find_from(&v, &od, 0) {
        Some(d0) => {
            proof {
                crate::text::lemma_find_from_props(html@, od@, 0);
            }
            let cs = d0 + od.len();
            match find_from(&v, &pt, cs) {
                Some(p0) => {
                    proof {
                        crate::text::lemma_find_from_props(html@, pt@, cs as int);
                    }
                    let ps = p0 + 3;
                    match find_from(&v, &pc, ps) {
                        Some(pe) => {
                            proof {
                                crate::text::lemma_find_from_props(html@, pc@, ps as int);
                            }
                            Some(strip_html_tags(html.substring_char(ps, pe)))
                        },
                        None => None,
                    }
                },
                None => None,
            }
        },
        None => None,
    }
}

pub open spec fn is_ascii_digit_spec(c: char) -> bool {
    48 <= c as u32 <= 57
}

/// The version drawn from the page title: the text after the last hyphen,
/// accepted only when it starts with an ASCII digit.
pub open spec fn version_spec(h: Seq<char>) -> Option<Seq<char>> {
    match find_from_spec(h, "<title>"@, 0) {
        Some(t0) => {
            let ts = t0 + 7;
            match find_from_spec(h, "</title>"@, ts) {
                Some(te) => {
                    let title = h.subrange(ts, te);
                    match rfind_spec(title, "-"@) {
                        Some(d) => {
                            let ver = title.skip(d + 1);
                            if ver.len() > 0 && is_ascii_digit_spec(ver[0]) {
                                Some(ver)
                            } else {
                                None
                            }
                        },
                        None => None,
                    }
                },
                None => None,
            }
        },
        None => None,
    }
}

/// Extracts the package version heuristically from the page title.
pub fn extract_version(html: &str) -> (r: Option<String>)
    ensures
        match r {
            Some(d) => version_spec(html@) == Some(d@),
            None => version_spec(html@) is None,
        },
{
    proof {
        reveal_strlit("<title>");
        reveal_strlit("</title>");
        reveal_strlit("-");
    }
    let v = to_char_vec(html);
    let tt = to_char_vec("<title>");
    let tc = to_char_vec("</title>");
    let dash = to_char_vec("-");
    match find_from(&v, &tt, 0) {
        Some(t0) => {
            proof {
                crate::text::lemma_find_from_props(html@, tt@, 0);
            }
            let ts = t0 + 7;
            match find_from(&v, &tc, ts) {
                Some(te) => {
                    proof {
                        crate::text::lemma_find_from_props(html@, tc@, ts as int);
                    }
                    let title = html.substring_char(ts, te);
                    let tv = to_char_vec(title);
                    match rfind(&tv, &dash) {
                        Some(d) => {
                            proof {
                                crate::text::lemma_rfind_props(title@, dash@);
                            }
                            let ver = title.substring_char(d + 1, tv.len());
                            let vv = to_char_vec(ver);
                            if vv.len() > 0 && {
                                let c0 = vv[0] as u32;
                                48 <= c0 && c0 <= 57
                            } {
                                proof {
                                    assert(ver@ =~= title@.skip(d + 1));
                                }
                                Some(ver.to_owned())
                            } else {
                                proof {
                                    assert(ver@ =~= title@.skip(d + 1));
                                }
                                None
                            }
                        },
                        None => None,
                    }
                },
                None => None,
            }
        },
        None => None,
    }
}

/// The catalog entry built for one package directory.
pub open spec fn crate_info_ok(name: Seq<char>, html: Seq<char>, info: CrateInfo) -> bool {
    &&& info.name@ == name
    &&& info.description@ == match description_spec(html) {
        Some(d) => d,
        None => "Rust crate documentation"@,
    }
    &&& (match version_spec(html) {
        Some(ver) => info.version matches Some(v) && v@ == ver,
        None => info.version is None,
    })
    &&& info.path@ == name + "/index.html"@
}

/// Builds the catalog entry for one package directory from its name and
/// the text of its `index.html`.
pub fn extract_crate_info(dir_name: &str, html: &str) -> (r: CrateInfo)
    ensures
        crate_info_ok(dir_name@, html@, r),
{
    let description = match extract_description(html) {
        Some(d) => d,
        None => "Rust crate documentation".to_owned(),
    };
    let version = extract_version(html);
    let mut path = dir_name.to_owned();
    path.append("/index.html");
    CrateInfo { name: dir_name.to_owned(), description, version, path }
}

/// The catalog is ordered by package name, ascending by code point.
pub open spec fn catalog_sorted(s: Seq<CrateInfo>) -> bool {
    forall|i: int, j: int|
        0 <= i < j < s.len() ==> lex_le(#[trigger] s[i].name@, #[trigger] s[j].name@)
}

/// Places one entry into an ordered catalog, keeping the order.
pub fn insert_sorted(list: &mut Vec<CrateInfo>, info: CrateInfo)
    requires
        catalog_sorted(old(list)@),
    ensures
        catalog_sorted(final(list)@),
        final(list)@.to_multiset() == old(list)@.to_multiset().insert(info),
        final(list)@.len() == old(list)@.len() + 1,
{
    let ghost info0 = info;
    let mut j: usize = 0;
    while j < list.len() && str_le(list[j].name.as_str(), info.name.as_str())
        invariant
            list@ == old(list)@,
            info == info0,
            j <= list@.len(),
            forall|k: int| 0 <= k < j ==> lex_le(#[trigger] list@[k].name@, info.name@),
        decreases list@.len() - j,
    {
        j = j + 1;
    }
    proof {
        if (j as int) < list@.len() {
            crate::text::lemma_lex_total(list@[j as int].name@, info.name@);
        }
        vstd::seq_lib::to_multiset_insert(list@, j as int, info);
    }
    let ghost pre = list@;
    list.insert(j, info);
    proof {
        assert forall|a: int, b: int| 0 <= a < b < list@.len() implies lex_le(
            #[trigger] list@[a].name@,
            #[trigger] list@[b].name@,
        ) by {
            if b < j {
            } else if a < j && b == j {
            } else if a == j {
                if b - 1 > j {
                    crate::text::lemma_lex_trans(info0.name@, pre[j as int].name@, pre[b - 1].name@);
                }
            } else if a < j {
            } else {
            }
        }
    }
}

/// Orders a catalog by package name, ascending; the result holds exactly
/// the entries given.
pub fn sort_crates(list: Vec<CrateInfo>) -> (r: Vec<CrateInfo>)
    ensures
        catalog_sorted(r@),
        r@.to_multiset() == list@.to_multiset(),
{
    let ghost orig = list@;
    let mut input = list;
    let mut out: Vec<CrateInfo> = Vec::new();
    proof {
        vstd::seq_lib::lemma_multiset_commutative(out@, input@);
        assert(out@ + input@ =~= input@);
    }
    while input.len() > 0
        invariant
            catalog_sorted(out@),
            out@.to_multiset().add(input@.to_multiset()) == orig.to_multiset(),
        decreases input@.len(),
    {
        let ghost pre_in = input@;
        let x = match input.pop() {
            Some(x) => x,
            None => {
                proof {
                    assert(false);
                }
                unreached()
            },
        };
        proof {
            assert(pre_in =~= input@.push(x));
            vstd::seq_lib::to_multiset_build(input@, x);
        }
        let ghost pre_out = out@;
        insert_sorted(&mut out, x);
        proof {
            assert(out@.to_multiset().add(input@.to_multiset()) =~= pre_out.to_multiset().add(
                pre_in.to_multiset(),
            ));
        }
    }
    proof {
        broadcast use vstd::multiset::group_multiset_axioms;

        input@.to_multiset_ensures();
        assert(forall|a: CrateInfo| input@.to_multiset().count(a) == 0);
        assert(out@.to_multiset().add(input@.to_multiset()) =~= out@.to_multiset());
    }
    out
}


/// The version badge shown on a card, or nothing.
pub open spec fn version_badge_spec(version: Option<String>) -> Seq<char> {
    match version {
        Some(v) => "<span class=\"crate-version\">v"@ + v@ + "</span>"@,
        None => Seq::empty(),
    }
}

/// The description a card shows: the extracted one, or the generic
/// placeholder when it is empty.
pub open spec fn shown_description_spec(d: Seq<char>) -> Seq<char> {
    if d.len() == 0 {
        "Rust crate documentation"@
    } else {
        d
    }
}

/// The card rendered for one package.
pub open spec fn crate_card_spec(c: CrateInfo) -> Seq<char> {
    "<a href=\""@ + c.path@ + "\" class=\"crate-card\">\n        <div class=\"crate-name\">\n            "@
        + c.name@ + "\n            "@ + version_badge_spec(c.version)
        + "\n        </div>\n        <div class=\"crate-description\">"@ + shown_description_spec(
        c.description@,
    ) + "</div>\n    </a>"@
}

/// Renders one package's card.
pub fn generate_crate_card_html(info: &CrateInfo) -> (r: String)
    ensures
        r@ == crate_card_spec(*info),
{
    let mut r = String::from_str("<a href=\"");
    r.append(info.path.as_str());
    r.append("\" class=\"crate-card\">\n        <div class=\"crate-name\">\n            ");
    r.append(info.name.as_str());
    r.append("\n            ");
    match &info.version {
        Some(v) => {
            r.append("<span class=\"crate-version\">v");
            r.append(v.as_str());
            r.append("</span>");
        },
        None => {},
    }
    r.append("\n        </div>\n        <div class=\"crate-description\">");
    if info.description.as_str().unicode_len() == 0 {
        r.append("Rust crate documentation");
    } else {
        r.append(info.description.as_str());
    }
    r.append("</div>\n    </a>");
    r
}

/// The cards of all packages, separated by single newlines.
pub open spec fn cards_spec(cs: Seq<CrateInfo>) -> Seq<char>
    decreases cs.len(),
{
    if cs.len() == 0 {
        Seq::empty()
    } else if cs.len() == 1 {
        crate_card_spec(cs[0])
    } else {
        crate_card_spec(cs[0]) + "\n"@ + cards_spec(cs.skip(1))
    }
}

proof fn lemma_cards_push(s: Seq<CrateInfo>, x: CrateInfo)
    ensures
        cards_spec(s.push(x)) == if s.len() == 0 {
            crate_card_spec(x)
        } else {
            cards_spec(s) + "\n"@ + crate_card_spec(x)
        },
    decreases s.len(),
{
    if s.len() == 0 {
        assert(s.push(x).len() == 1);
        assert(s.push(x)[0] == x);
    } else {
        assert(s.push(x)[0] == s[0]);
        assert(s.push(x).skip(1) =~= s.skip(1).push(x));
        lemma_cards_push(s.skip(1), x);
        if s.len() == 1 {
            assert(cards_spec(s) == crate_card_spec(s[0]));
        } else {
            assert(crate_card_spec(s[0]) + "\n"@ + (cards_spec(s.skip(1)) + "\n"@
                + crate_card_spec(x)) =~= (crate_card_spec(s[0]) + "\n"@ + cards_spec(s.skip(1)))
                + "\n"@ + crate_card_spec(x));
        }
    }
}

/// The fixed page shell around the catalog.
pub open spec fn page_pre_spec() -> Seq<char> {
    "<!DOCTYPE html>\n<html lang=\"zh-CN\">\n<head>\n    <meta charset=\"utf-8\">\n    <meta name=\"viewport\" content=\"width=device-width, initial-scale=1.0\">\n    <title>æ‰€æœ‰åŒ…æ¦‚è§ˆ - Cargo Doc Viewer</title>\n    <style>\n        :root {\n            --cdv-bg: rgba(20,22,30,0.95);\n            --cdv-fg: #e6e6e6;\n            --cdv-accent: #6aa6ff;\n            --cdv-border: rgba(255,255,255,0.12);\n            --cdv-card-bg: rgba(255,255,255,0.08);\n            --cdv-hover: rgba(255,255,255,0.15);\n        }\n        \n        * {\n            margin: 0;\n            padding: 0;\n            box-sizing: border-box;\n        }\n        \n        body {\n            font-family: -apple-system, BlinkMacSystemFont, \"Segoe UI\", Roboto, \"Helvetica Neue\", sans-serif;\n            background: linear-gradient(135deg, #1a1d29 0%, #2a2d3a 100%);\n            color: var(--cdv-fg);\n            min-height: 100vh;\n            padding: 2rem;\n        }\n        \n        .header {\n            text-align: center;\n            margin-bottom: 3rem;\n        }\n        \n        .header h1 {\n            font-size: 2.5rem;\n            font-weight: 600;\n            color: var(--cdv-accent);\n            margin-bottom: 0.5rem;\n        }\n        \n        .header p {\n            font-size: 1.1rem;\n            opacity: 0.8;\n        }\n        \n        .crates-grid {\n            display: grid;\n            grid-template-columns: repeat(auto-fill, minmax(350px, 1fr));\n            gap: 1.5rem;\n            max-width: 1200px;\n            margin: 0 auto;\n        }\n        \n        .crate-card {\n            background: var(--cdv-card-bg);\n            border: 1px solid var(--cdv-border);\n            border-radius: 12px;\n            padding: 1.5rem;\n            transition: all 0.2s ease;\n            cursor: pointer;\n            text-decoration: none;\n            color: inherit;\n            backdrop-filter: blur(10px);\n        }\n        \n        .crate-card:hover {\n            background: var(--cdv-hover);\n            transform: translateY(-2px);\n            box-shadow: 0 8px 25px rgba(0,0,0,0.25);\n        }\n        \n        .crate-name {\n            font-size: 1.25rem;\n            font-weight: 600;\n            color: var(--cdv-accent);\n            margin-bottom: 0.5rem;\n            display: flex;\n            align-items: center;\n            justify-content: space-between;\n        }\n        \n        .crate-version {\n            font-size: 0.9rem;\n            color: rgba(255,255,255,0.6);\n            font-weight: normal;\n            background: rgba(255,255,255,0.1);\n            padding: 0.2rem 0.5rem;\n            border-radius: 4px;\n        }\n        \n        .crate-description {\n            color: rgba(255,255,255,0.8);\n            line-height: 1.5;\n            font-size: 0.95rem;\n        }\n        \n        .empty-state {\n            text-align: center;\n            padding: 3rem;\n            color: rgba(255,255,255,0.6);\n        }\n        \n        .empty-state h2 {\n            font-size: 1.5rem;\n            margin-bottom: 1rem;\n        }\n        \n        @media (max-width: 768px) {\n            body {\n                padding: 1rem;\n            }\n            \n            .crates-grid {\n                grid-template-columns: 1fr;\n                gap: 1rem;\n            }\n            \n            .header h1 {\n                font-size: 2rem;\n            }\n        }\n    </style>\n</head>\n<body>\n    <div class=\"header\">\n        <h1>ğŸ“¦ æ‰€æœ‰åŒ…æ¦‚è§ˆ</h1>\n        <p>ç‚¹å‡»ä»»æ„å¡ç‰‡æŸ¥çœ‹å¯¹åº”åŒ…çš„æ–‡æ¡£</p>\n    </div>\n    \n    "@
}

pub open spec fn page_post_spec() -> Seq<char> {
    "\n</body>\n</html>"@
}

/// The shell shown when no package was found.
pub open spec fn empty_state_spec() -> Seq<char> {
    "<div class=\"empty-state\">\n                <h2>ğŸ˜® æ²¡æœ‰æ‰¾åˆ°ä»»ä½•åŒ…</h2>\n                <p>è¯·ç¡®ä¿å·²ç»è¿è¡Œäº† <code>cargo doc</code> ç”Ÿæˆæ–‡æ¡£</p>\n            </div>"@
}

/// The whole overview page for an ordered catalog: one card per package
/// inside the grid, or the empty state when there is none.
pub open spec fn overview_page_spec(cs: Seq<CrateInfo>) -> Seq<char> {
    page_pre_spec() + (if cs.len() == 0 {
        empty_state_spec()
    } else {
        "<div class=\"crates-grid\">"@ + cards_spec(cs) + "</div>"@
    }) + page_post_spec()
}

/// Renders the overview page for an ordered catalog.  The same catalog
/// always yields byte-identical text.
pub fn generate_overview_html(crates: &Vec<CrateInfo>) -> (r: String)
    ensures
        r@ == overview_page_spec(crates@),
{
    let mut cards = String::new();
    let n = crates.len();
    let mut i: usize = 0;
    while i < n
        invariant
            n == crates@.len(),
            i <= n,
            cards@ == cards_spec(crates@.subrange(0, i as int)),
        decreases n - i,
    {
        proof {
            assert(crates@.subrange(0, i + 1) =~= crates@.subrange(0, i as int).push(
                crates@[i as int],
            ));
            lemma_cards_push(crates@.subrange(0, i as int), crates@[i as int]);
        }
        if i > 0 {
            cards.append("\n");
        }
        let card = generate_crate_card_html(&crates[i]);
        cards.append(card.as_str());
        i = i + 1;
    }
    proof {
        assert(crates@.subrange(0, n as int) =~= crates@);
    }
    let mut r = String::from_str("<!DOCTYPE html>\n<html lang=\"zh-CN\">\n<head>\n    <meta charset=\"utf-8\">\n    <meta name=\"viewport\" content=\"width=device-width, initial-scale=1.0\">\n    <title>æ‰€æœ‰åŒ…æ¦‚è§ˆ - Cargo Doc Viewer</title>\n    <style>\n        :root {\n            --cdv-bg: rgba(20,22,30,0.95);\n            --cdv-fg: #e6e6e6;\n            --cdv-accent: #6aa6ff;\n            --cdv-border: rgba(255,255,255,0.12);\n            --cdv-card-bg: rgba(255,255,255,0.08);\n            --cdv-hover: rgba(255,255,255,0.15);\n        }\n        \n        * {\n            margin: 0;\n            padding: 0;\n            box-sizing: border-box;\n        }\n        \n        body {\n            font-family: -apple-system, BlinkMacSystemFont, \"Segoe UI\", Roboto, \"Helvetica Neue\", sans-serif;\n            background: linear-gradient(135deg, #1a1d29 0%, #2a2d3a 100%);\n            color: var(--cdv-fg);\n            min-height: 100vh;\n            padding: 2rem;\n        }\n        \n        .header {\n            text-align: center;\n            margin-bottom: 3rem;\n        }\n        \n        .header h1 {\n            font-size: 2.5rem;\n            font-weight: 600;\n            color: var(--cdv-accent);\n            margin-bottom: 0.5rem;\n        }\n        \n        .header p {\n            font-size: 1.1rem;\n            opacity: 0.8;\n        }\n        \n        .crates-grid {\n            display: grid;\n            grid-template-columns: repeat(auto-fill, minmax(350px, 1fr));\n            gap: 1.5rem;\n            max-width: 1200px;\n            margin: 0 auto;\n        }\n        \n        .crate-card {\n            background: var(--cdv-card-bg);\n            border: 1px solid var(--cdv-border);\n            border-radius: 12px;\n            padding: 1.5rem;\n            transition: all 0.2s ease;\n            cursor: pointer;\n            text-decoration: none;\n            color: inherit;\n            backdrop-filter: blur(10px);\n        }\n        \n        .crate-card:hover {\n            background: var(--cdv-hover);\n            transform: translateY(-2px);\n            box-shadow: 0 8px 25px rgba(0,0,0,0.25);\n        }\n        \n        .crate-name {\n            font-size: 1.25rem;\n            font-weight: 600;\n            color: var(--cdv-accent);\n            margin-bottom: 0.5rem;\n            display: flex;\n            align-items: center;\n            justify-content: space-between;\n        }\n        \n        .crate-version {\n            font-size: 0.9rem;\n            color: rgba(255,255,255,0.6);\n            font-weight: normal;\n            background: rgba(255,255,255,0.1);\n            padding: 0.2rem 0.5rem;\n            border-radius: 4px;\n        }\n        \n        .crate-description {\n            color: rgba(255,255,255,0.8);\n            line-height: 1.5;\n            font-size: 0.95rem;\n        }\n        \n        .empty-state {\n            text-align: center;\n            padding: 3rem;\n            color: rgba(255,255,255,0.6);\n        }\n        \n        .empty-state h2 {\n            font-size: 1.5rem;\n            margin-bottom: 1rem;\n        }\n        \n        @media (max-width: 768px) {\n            body {\n                padding: 1rem;\n            }\n            \n            .crates-grid {\n                grid-template-columns: 1fr;\n                gap: 1rem;\n            }\n            \n            .header h1 {\n                font-size: 2rem;\n            }\n        }\n    </style>\n</head>\n<body>\n    <div class=\"header\">\n        <h1>ğŸ“¦ æ‰€æœ‰åŒ…æ¦‚è§ˆ</h1>\n        <p>ç‚¹å‡»ä»»æ„å¡ç‰‡æŸ¥çœ‹å¯¹åº”åŒ…çš„æ–‡æ¡£</p>\n    </div>\n    \n    ");
    if n == 0 {
        r.append("<div class=\"empty-state\">\n                <h2>ğŸ˜® æ²¡æœ‰æ‰¾åˆ°ä»»ä½•åŒ…</h2>\n                <p>è¯·ç¡®ä¿å·²ç»è¿è¡Œäº† <code>cargo doc</code> ç”Ÿæˆæ–‡æ¡£</p>\n            </div>");
    } else {
        r.append("<div class=\"crates-grid\">");
        r.append(cards.as_str());
        r.append("</div>");
    }
    r.append("\n</body>\n</html>");
    r
}


/// No two catalog entries share a package name, as holds of entries drawn
/// from one directory's children.
pub open spec fn distinct_names(s: Seq<CrateInfo>) -> bool {
    forall|i: int, j: int|
        0 <= i < j < s.len() ==> (#[trigger] s[i].name@) != (#[trigger] s[j].name@)
}

/// Catalog determinism: a catalog is fixed by its entries alone.  Two
/// ordered catalogs holding the same entries, no two of which share a
/// name, are identical — so the order in which a scan happened to
/// enumerate the directory cannot show through, and two scans of one
/// snapshot render the same overview.
pub proof fn lemma_catalog_canonical(a: Seq<CrateInfo>, b: Seq<CrateInfo>)
    requires
        catalog_sorted(a),
        catalog_sorted(b),
        distinct_names(a),
        a.to_multiset() == b.to_multiset(),
    ensures
        a == b,
    decreases a.len(),
{
    broadcast use vstd::multiset::group_multiset_axioms;

    a.to_multiset_ensures();
    b.to_multiset_ensures();
    assert(a.len() == b.len());
    if a.len() == 0 {
        assert(a =~= b);
    } else {
        assert(a.contains(a[0]));
        assert(b.to_multiset().count(a[0]) > 0);
        assert(b.contains(a[0]));
        let k = choose|k: int| 0 <= k < b.len() && b[k] == a[0];
        assert(a.to_multiset().count(b[0]) > 0) by {
            assert(b.contains(b[0]));
        }
        assert(a.contains(b[0]));
        let m = choose|m: int| 0 <= m < a.len() && a[m] == b[0];
        if k != 0 && m != 0 {
            assert(lex_le(b[0].name@, a[0].name@));
            assert(lex_le(a[0].name@, b[0].name@));
            crate::text::lemma_lex_antisym(a[0].name@, b[0].name@);
            assert(a[m].name@ == a[0].name@);
            assert(false);
        }
        assert(b[0] == a[0]);
        let a1 = a.remove(0);
        let b1 = b.remove(0);
        assert(a1.to_multiset() == b1.to_multiset()) by {
            assert(a.remove(0).to_multiset() =~= a.to_multiset().remove(a[0]));
            assert(b.remove(0).to_multiset() =~= b.to_multiset().remove(b[0]));
        }
        assert(catalog_sorted(a1)) by {
            assert(forall|i: int| 0 <= i < a1.len() ==> a1[i] == a[i + 1]);
        }
        assert(catalog_sorted(b1)) by {
            assert(forall|i: int| 0 <= i < b1.len() ==> b1[i] == b[i + 1]);
        }
        assert(distinct_names(a1)) by {
            assert(forall|i: int| 0 <= i < a1.len() ==> a1[i] == a[i + 1]);
        }
        lemma_catalog_canonical(a1, b1);
        assert(a1.len() == a.len() - 1);
        assert(b1.len() == b.len() - 1);
        assert forall|i: int| 0 <= i < a.len() implies a[i] == b[i] by {
            if i >= 1 {
                assert(a[i] == a1[i - 1]);
                assert(b[i] == b1[i - 1]);
            }
        }
        assert(a =~= b);
    }
}

} // verus!
