//! Links in a README: relative link targets become URLs of the files on
//! GitHub.
use vstd::prelude::*;

use super::{capture_view, find_captures, group, group_text, regex_captures, CaptureMatch, PostProcessContext};
use crate::text::{
    chars_of, replace_all, starts_with, str_replace, str_starts_with, string_from_chars,
    trim_start_pattern, trim_start_pattern_exec,
};

verus! {

/// A Markdown link `[text](href)`; group 1 is the text, group 2 the target.
pub const MD_LINK_PATTERN: &'static str = r"\[([^\]]+)\]\(([^)]+)\)";

/// An HTML `<a>` tag with an `href` attribute; group 1 is the target.
pub const HTML_LINK_PATTERN: &'static str = r#"<a\s+[^>]*href\s*=\s*["']([^"']+)["'][^>]*>"#;

/// A link target that is a path inside the repository rather than a URL, an anchor or
/// a mail address.
pub open spec fn is_relative_link(src: Seq<char>) -> bool {
    &&& !starts_with(src, "http://"@)
    &&& !starts_with(src, "https://"@)
    &&& !starts_with(src, "data:"@)
    &&& !starts_with(src, "#"@)
    &&& !starts_with(src, "mailto:"@)
}

fn is_relative_path(src: &str) -> (res: bool)
    ensures
        res == is_relative_link(src@),
{
    !str_starts_with(src, "http://") && !str_starts_with(src, "https://") && !str_starts_with(
        src,
        "data:",
    ) && !str_starts_with(src, "#") && !str_starts_with(src, "mailto:")
}

/// The URL of a repository file on GitHub, for a path with leading `./` removed.
pub open spec fn blob_url(src: Seq<char>, ctx: PostProcessContext) -> Seq<char> {
    "https://github.com/"@ + ctx.owner@ + "/"@ + ctx.repo@ + "/blob/"@ + ctx.branch@ + "/"@
        + trim_start_pattern(src, "./"@)
}

fn to_blob_url(src: &str, ctx: &PostProcessContext) -> (res: String)
    ensures
        res@ == blob_url(src@, *ctx),
{
    let s = chars_of(src);
    let p = chars_of("./");
    proof {
        reveal_strlit("./");
    }
    let path = string_from_chars(&trim_start_pattern_exec(&s, &p));
    let mut out = String::new();
    out.append("https://github.com/");
    out.append(ctx.owner);
    out.append("/");
    out.append(ctx.repo);
    out.append("/blob/");
    out.append(ctx.branch);
    out.append("/");
    out.append(path.as_str());
    out
}

/// The byte just before offset `start` of the text is `!` (the match is an image).
pub open spec fn preceded_by_bang(content: Seq<char>, start: nat) -> bool {
    let bytes = vstd::utf8::encode_utf8(content);
    start > 0 && start - 1 < bytes.len() && bytes[start - 1] == 33u8
}

/// For a Markdown link match that is not an image and has a relative target: the match
/// and its rewritten form.
pub open spec fn md_link_edit(
    m: (nat, Seq<Option<Seq<char>>>),
    content: Seq<char>,
    ctx: PostProcessContext,
) -> Option<(Seq<char>, Seq<char>)> {
    if preceded_by_bang(content, m.0) {
        None
    } else {
        match (group(m, 0), group(m, 1), group(m, 2)) {
            (Some(full), Some(text), Some(href)) => if is_relative_link(href) {
                Some((full, "["@ + text + "]("@ + blob_url(href, ctx) + ")"@))
            } else {
                None
            },
            _ => None,
        }
    }
}

/// The README text after handling the Markdown link matches in order.
pub open spec fn md_links_over(
    caps: Seq<(nat, Seq<Option<Seq<char>>>)>,
    content: Seq<char>,
    ctx: PostProcessContext,
) -> Seq<char>
    decreases caps.len(),
{
    if caps.len() == 0 {
        content
    } else {
        let prev = md_links_over(caps.drop_last(), content, ctx);
        match md_link_edit(caps.last(), content, ctx) {
            Some((full, md)) => replace_all(prev, full, md),
            None => prev,
        }
    }
}

/// The effect of [`process_md_links`] on a README.
pub open spec fn md_links_result(content: Seq<char>, ctx: PostProcessContext) -> Seq<char> {
    match regex_captures(MD_LINK_PATTERN@, content) {
        Some(caps) => md_links_over(caps, content, ctx),
        None => content,
    }
}

/// Rewrites relative targets of Markdown links `[text](href)` (not images) to the
/// files' GitHub URLs.
pub fn process_md_links(content: &str, ctx: &PostProcessContext) -> (res: String)
    ensures
        res@ == md_links_result(content@, *ctx),
{
    let mut result = String::from_str(content);
    let caps = match find_captures(MD_LINK_PATTERN, content) {
        Some(c) => c,
        None => {
            return result;
        },
    };
    let bytes = content.as_bytes();
    let ghost cv = caps@.map_values(|m: CaptureMatch| capture_view(m));
    assert(cv.take(0) =~= Seq::<(nat, Seq<Option<Seq<char>>>)>::empty());
    let mut i: usize = 0;
    while i < caps.len()
        invariant
            i <= caps@.len(),
            bytes@ == vstd::utf8::encode_utf8(content@),
            cv == caps@.map_values(|m: CaptureMatch| capture_view(m)),
            regex_captures(MD_LINK_PATTERN@, content@) == Some(cv),
            result@ == md_links_over(cv.take(i as int), content@, *ctx),
        decreases caps@.len() - i,
    {
        let ghost pre = cv.take(i + 1);
        assert(pre.drop_last() =~= cv.take(i as int));
        assert(pre.last() == capture_view(caps@[i as int]));
        let start = caps[i].start;
        let is_image = start > 0 && start - 1 < bytes.len() && bytes[start - 1] == 33u8;
        if !is_image {
            let g0 = group_text(&caps[i], 0);
            let g1 = group_text(&caps[i], 1);
            let g2 = group_text(&caps[i], 2);
            match (g0, g1, g2) {
                (Some(full), Some(text), Some(href)) => {
                    if is_relative_path(href.as_str()) {
                        let url = to_blob_url(href.as_str(), ctx);
                        let mut md = String::new();
                        md.append("[");
                        md.append(text.as_str());
                        md.append("](");
                        md.append(url.as_str());
                        md.append(")");
                        result = str_replace(result.as_str(), full.as_str(), md.as_str());
                    }
                },
                _ => {},
            }
        }
        i = i + 1;
    }
    assert(cv.take(caps@.len() as int) =~= cv);
    result
}

/// For an `<a>` match with a relative target: the tag and the tag with its target rewritten.
pub open spec fn html_link_edit(m: (nat, Seq<Option<Seq<char>>>), ctx: PostProcessContext) -> Option<
    (Seq<char>, Seq<char>),
> {
    match (group(m, 0), group(m, 1)) {
        (Some(full), Some(href)) => if is_relative_link(href) {
            Some((full, replace_all(full, href, blob_url(href, ctx))))
        } else {
            None
        },
        _ => None,
    }
}

/// The README text after handling the `<a>` matches in order.
pub open spec fn html_links_over(
    caps: Seq<(nat, Seq<Option<Seq<char>>>)>,
    content: Seq<char>,
    ctx: PostProcessContext,
) -> Seq<char>
    decreases caps.len(),
{
    if caps.len() == 0 {
        content
    } else {
        let prev = html_links_over(caps.drop_last(), content, ctx);
        match html_link_edit(caps.last(), ctx) {
            Some((full, tag)) => replace_all(prev, full, tag),
            None => prev,
        }
    }
}

/// The effect of [`process_html_links`] on a README.
pub open spec fn html_links_result(content: Seq<char>, ctx: PostProcessContext) -> Seq<char> {
    match regex_captures(HTML_LINK_PATTERN@, content) {
        Some(caps) => html_links_over(caps, content, ctx),
        None => content,
    }
}

/// Rewrites relative `href` targets of `<a>` tags to the files' GitHub URLs.
pub fn process_html_links(content: &str, ctx: &PostProcessContext) -> (res: String)
    ensures
        res@ == html_links_result(content@, *ctx),
{
    let mut result = String::from_str(content);
    let caps = match find_captures(HTML_LINK_PATTERN, content) {
        Some(c) => c,
        None => {
            return result;
        },
    };
    let ghost cv = caps@.map_values(|m: CaptureMatch| capture_view(m));
    assert(cv.take(0) =~= Seq::<(nat, Seq<Option<Seq<char>>>)>::empty());
    let mut i: usize = 0;
    while i < caps.len()
        invariant
            i <= caps@.len(),
            cv == caps@.map_values(|m: CaptureMatch| capture_view(m)),
            regex_captures(HTML_LINK_PATTERN@, content@) == Some(cv),
            result@ == html_links_over(cv.take(i as int), content@, *ctx),
        decreases caps@.len() - i,
    {
        let ghost pre = cv.take(i + 1);
        assert(pre.drop_last() =~= cv.take(i as int));
        assert(pre.last() == capture_view(caps@[i as int]));
        let g0 = group_text(&caps[i], 0);
        let g1 = group_text(&caps[i], 1);
        match (g0, g1) {
            (Some(full), Some(href)) => {
                if is_relative_path(href.as_str()) {
                    let url = to_blob_url(href.as_str(), ctx);
                    let tag = str_replace(full.as_str(), href.as_str(), url.as_str());
                    result = str_replace(result.as_str(), full.as_str(), tag.as_str());
                }
            },
            _ => {},
        }
        i = i + 1;
    }
    assert(cv.take(caps@.len() as int) =~= cv);
    result
}

/// A link target that is already absolute or not a file: a web URL, a data URL, an anchor
/// or a mail address.
pub open spec fn absolute_target(href: Seq<char>) -> bool {
    ||| starts_with(href, "http://"@)
    ||| starts_with(href, "https://"@)
    ||| starts_with(href, "data:"@)
    ||| starts_with(href, "#"@)
    ||| starts_with(href, "mailto:"@)
}

proof fn lemma_md_links_over_kept(caps: Seq<(nat, Seq<Option<Seq<char>>>)>, content: Seq<char>, ctx: PostProcessContext)
    requires
        forall|i: int| 0 <= i < caps.len() ==> (group(#[trigger] caps[i], 2) matches Some(h) ==> absolute_target(h)),
    ensures
        md_links_over(caps, content, ctx) == content,
    decreases caps.len(),
{
    if caps.len() > 0 {
        assert forall|i: int| 0 <= i < caps.drop_last().len() implies (group(#[trigger] caps.drop_last()[i], 2) matches Some(h) ==> absolute_target(h)) by {
            assert(caps.drop_last()[i] == caps[i]);
        }
        lemma_md_links_over_kept(caps.drop_last(), content, ctx);
        assert(caps.last() == caps[caps.len() - 1]);
    }
}

proof fn lemma_html_links_over_kept(caps: Seq<(nat, Seq<Option<Seq<char>>>)>, content: Seq<char>, ctx: PostProcessContext)
    requires
        forall|i: int| 0 <= i < caps.len() ==> (group(#[trigger] caps[i], 1) matches Some(h) ==> absolute_target(h)),
    ensures
        html_links_over(caps, content, ctx) == content,
    decreases caps.len(),
{
    if caps.len() > 0 {
        assert forall|i: int| 0 <= i < caps.drop_last().len() implies (group(#[trigger] caps.drop_last()[i], 1) matches Some(h) ==> absolute_target(h)) by {
            assert(caps.drop_last()[i] == caps[i]);
        }
        lemma_html_links_over_kept(caps.drop_last(), content, ctx);
        assert(caps.last() == caps[caps.len() - 1]);
    }
}

/// Links to web URLs (`http://`, `https://`), data URLs, anchors and mail addresses are
/// never rewritten: a README whose Markdown links and `<a>` tags all have such targets
/// comes out of [`process_md_links`] and [`process_html_links`] unchanged.
pub proof fn lemma_absolute_links_kept(content: Seq<char>, ctx: PostProcessContext)
    ensures
        (regex_captures(MD_LINK_PATTERN@, content) matches Some(caps) ==> forall|i: int|
            0 <= i < caps.len() ==> (group(#[trigger] caps[i], 2) matches Some(h) ==> absolute_target(h)))
            ==> md_links_result(content, ctx) == content,
        (regex_captures(HTML_LINK_PATTERN@, content) matches Some(caps) ==> forall|i: int|
            0 <= i < caps.len() ==> (group(#[trigger] caps[i], 1) matches Some(h) ==> absolute_target(h)))
            ==> html_links_result(content, ctx) == content,
{
    match regex_captures(MD_LINK_PATTERN@, content) {
        Some(caps) => {
            if forall|i: int|
                0 <= i < caps.len() ==> (group(#[trigger] caps[i], 2) matches Some(h) ==> absolute_target(h)) {
                lemma_md_links_over_kept(caps, content, ctx);
            }
        },
        None => {},
    }
    match regex_captures(HTML_LINK_PATTERN@, content) {
        Some(caps) => {
            if forall|i: int|
                0 <= i < caps.len() ==> (group(#[trigger] caps[i], 1) matches Some(h) ==> absolute_target(h)) {
                lemma_html_links_over_kept(caps, content, ctx);
            }
        },
        None => {},
    }
}

} // verus!
