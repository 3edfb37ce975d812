//! Pictures in a README: relative image paths become raw-content URLs, and
//! each such picture joins the plugin's gallery.
use vstd::prelude::*;

use super::{
    capture_view, find_captures, group, group_text, now_date, raw_url, regex_captures, to_raw_url,
    CaptureMatch, PostProcessContext,
};
use crate::plugin::GalleryItem;
use crate::text::{
    chars_of, replace_all, starts_with, str_replace, str_starts_with, string_from_chars,
    trim_start_pattern, trim_start_pattern_exec,
};

verus! {

/// An HTML `<img>` tag with a `src` attribute; group 1 is the source.
pub const IMG_TAG_PATTERN: &'static str = r#"<img\s+[^>]*src\s*=\s*["']([^"']+)["'][^>]*>"#;

/// An `alt` attribute; group 1 is its text.
pub const IMG_ALT_PATTERN: &'static str = r#"alt\s*=\s*["']([^"']*)["']"#;

/// A Markdown image `![alt](src)`; group 1 is the alt text, group 2 the source.
pub const MD_IMG_PATTERN: &'static str = r"!\[([^\]]*)\]\(([^)]+)\)";

/// An image source that is a path inside the repository rather than a URL.
pub open spec fn is_relative_image(src: Seq<char>) -> bool {
    !starts_with(src, "http://"@) && !starts_with(src, "https://"@) && !starts_with(src, "data:"@)
}

fn is_relative_path(src: &str) -> (res: bool)
    ensures
        res == is_relative_image(src@),
{
    !str_starts_with(src, "http://") && !str_starts_with(src, "https://") && !str_starts_with(
        src,
        "data:",
    )
}

/// The raw-content URL an image path stands for, with leading `./` removed.
pub open spec fn image_url(src: Seq<char>, ctx: PostProcessContext) -> Seq<char> {
    raw_url(ctx.owner@, ctx.repo@, ctx.branch@, trim_start_pattern(src, "./"@))
}

fn image_url_exec(src: &str, ctx: &PostProcessContext) -> (res: String)
    ensures
        res@ == image_url(src@, *ctx),
{
    let s = chars_of(src);
    let p = chars_of("./");
    proof {
        reveal_strlit("./");
    }
    let path = string_from_chars(&trim_start_pattern_exec(&s, &p));
    to_raw_url(ctx.owner, ctx.repo, ctx.branch, path.as_str())
}

/// The `alt` text of an `<img>` tag, or the empty string.
pub open spec fn alt_title(tag: Seq<char>) -> Seq<char> {
    match regex_captures(IMG_ALT_PATTERN@, tag) {
        Some(ms) => if ms.len() > 0 {
            match group(ms[0], 1) {
                Some(t) => t,
                None => Seq::<char>::empty(),
            }
        } else {
            Seq::<char>::empty()
        },
        None => Seq::<char>::empty(),
    }
}

fn alt_title_exec(tag: &str) -> (res: String)
    ensures
        res@ == alt_title(tag@),
{
    match find_captures(IMG_ALT_PATTERN, tag) {
        Some(ms) => {
            if ms.len() > 0 {
                match group_text(&ms[0], 1) {
                    Some(t) => t,
                    None => String::new(),
                }
            } else {
                String::new()
            }
        },
        None => String::new(),
    }
}

/// For an `<img>` match with a relative source: the tag, the tag with its source
/// rewritten, and the picture's URL.
pub open spec fn html_image_edit(m: (nat, Seq<Option<Seq<char>>>), ctx: PostProcessContext) -> Option<
    (Seq<char>, Seq<char>, Seq<char>),
> {
    match (group(m, 0), group(m, 1)) {
        (Some(full), Some(src)) => if is_relative_image(src) {
            let url = image_url(src, ctx);
            Some((full, replace_all(full, src, url), url))
        } else {
            None
        },
        _ => None,
    }
}

/// The README text and the new gallery pictures (URL, title) after handling the
/// `<img>` matches in order.
pub open spec fn html_images_over(
    caps: Seq<(nat, Seq<Option<Seq<char>>>)>,
    content: Seq<char>,
    ctx: PostProcessContext,
) -> (Seq<char>, Seq<(Seq<char>, Seq<char>)>)
    decreases caps.len(),
{
    if caps.len() == 0 {
        (content, Seq::empty())
    } else {
        let prev = html_images_over(caps.drop_last(), content, ctx);
        match html_image_edit(caps.last(), ctx) {
            Some((full, tag, url)) => (
                replace_all(prev.0, full, tag),
                prev.1.push((url, alt_title(full))),
            ),
            None => prev,
        }
    }
}

/// The effect of [`process_html_images`] on a README: the new text and the new pictures.
pub open spec fn html_images_result(content: Seq<char>, ctx: PostProcessContext) -> (
    Seq<char>,
    Seq<(Seq<char>, Seq<char>)>,
) {
    match regex_captures(IMG_TAG_PATTERN@, content) {
        Some(caps) => html_images_over(caps, content, ctx),
        None => (content, Seq::empty()),
    }
}

/// `after` is `before` followed by pictures with the given URLs and titles, no
/// description, and any date.
pub open spec fn gallery_extended(
    before: Seq<GalleryItem>,
    after: Seq<GalleryItem>,
    added: Seq<(Seq<char>, Seq<char>)>,
) -> bool {
    &&& after.len() == before.len() + added.len()
    &&& forall|i: int| 0 <= i < before.len() ==> after[i] == before[i]
    &&& forall|j: int|
        0 <= j < added.len() ==> {
            &&& (#[trigger] after[before.len() + j]).url@ == added[j].0
            &&& after[before.len() + j].title@ == added[j].1
            &&& after[before.len() + j].description@ == Seq::<char>::empty()
        }
}

/// Rewrites relative `src` paths of `<img>` tags to raw-content URLs and adds each such
/// picture, titled by its `alt` text, to the gallery; the pictures added by one call all
/// carry the same date (today's, read once).
pub fn process_html_images(content: &str, ctx: &PostProcessContext, gallery: &mut Vec<GalleryItem>) -> (res:
    String)
    ensures
        res@ == html_images_result(content@, *ctx).0,
        gallery_extended(old(gallery)@, final(gallery)@, html_images_result(content@, *ctx).1),
        forall|j: int, k: int|
            old(gallery)@.len() <= j < final(gallery)@.len() && old(gallery)@.len() <= k < final(gallery)@.len()
                ==> (#[trigger] final(gallery)@[j]).created@ == (#[trigger] final(gallery)@[k]).created@,
{
    let mut result = String::from_str(content);
    let ghost start = gallery@;
    let caps = match find_captures(IMG_TAG_PATTERN, content) {
        Some(c) => c,
        None => {
            return result;
        },
    };
    let ghost cv = caps@.map_values(|m: CaptureMatch| capture_view(m));
    assert(cv.take(0) =~= Seq::<(nat, Seq<Option<Seq<char>>>)>::empty());
    let today = now_date();
    let mut i: usize = 0;
    while i < caps.len()
        invariant
            i <= caps@.len(),
            cv == caps@.map_values(|m: CaptureMatch| capture_view(m)),
            regex_captures(IMG_TAG_PATTERN@, content@) == Some(cv),
            result@ == html_images_over(cv.take(i as int), content@, *ctx).0,
            gallery_extended(start, gallery@, html_images_over(cv.take(i as int), content@, *ctx).1),
            forall|j: int| start.len() <= j < gallery@.len() ==> (#[trigger] gallery@[j]).created@ == today@,
        decreases caps@.len() - i,
    {
        let ghost pre = cv.take(i + 1);
        assert(pre.drop_last() =~= cv.take(i as int));
        assert(pre.last() == capture_view(caps@[i as int]));
        let ghost prev_items = html_images_over(cv.take(i as int), content@, *ctx).1;
        let g0 = group_text(&caps[i], 0);
        let g1 = group_text(&caps[i], 1);
        match (g0, g1) {
            (Some(full), Some(src)) => {
                if is_relative_path(src.as_str()) {
                    let url = image_url_exec(src.as_str(), ctx);
                    let tag = str_replace(full.as_str(), src.as_str(), url.as_str());
                    result = str_replace(result.as_str(), full.as_str(), tag.as_str());
                    let title = alt_title_exec(full.as_str());
                    let ghost before = gallery@;
                    gallery.push(
                        GalleryItem {
                            url,
                            title,
                            description: String::new(),
                            created: today.clone(),
                        },
                    );
                    let ghost items = html_images_over(pre, content@, *ctx).1;
                    assert(items == prev_items.push((url@, alt_title(full@))));
                    assert forall|j: int| 0 <= j < items.len() implies {
                        &&& (#[trigger] gallery@[start.len() + j]).url@ == items[j].0
                        &&& gallery@[start.len() + j].title@ == items[j].1
                        &&& gallery@[start.len() + j].description@ == Seq::<char>::empty()
                    } by {
                        if j < prev_items.len() {
                            assert(gallery@[start.len() + j] == before[start.len() + j]);
                        }
                    }
                }
            },
            _ => {},
        }
        i = i + 1;
    }
    assert(cv.take(caps@.len() as int) =~= cv);
    result
}

/// For a Markdown image match with a relative source: the match, its rewritten form,
/// the picture's URL and its alt text.
pub open spec fn md_image_edit(m: (nat, Seq<Option<Seq<char>>>), ctx: PostProcessContext) -> Option<
    (Seq<char>, Seq<char>, Seq<char>, Seq<char>),
> {
    match (group(m, 0), group(m, 1), group(m, 2)) {
        (Some(full), Some(alt), Some(src)) => if is_relative_image(src) {
            let url = image_url(src, ctx);
            Some((full, "!["@ + alt + "]("@ + url + ")"@, url, alt))
        } else {
            None
        },
        _ => None,
    }
}

/// The README text and the new pictures after handling the Markdown image matches in order.
pub open spec fn md_images_over(
    caps: Seq<(nat, Seq<Option<Seq<char>>>)>,
    content: Seq<char>,
    ctx: PostProcessContext,
) -> (Seq<char>, Seq<(Seq<char>, Seq<char>)>)
    decreases caps.len(),
{
    if caps.len() == 0 {
        (content, Seq::empty())
    } else {
        let prev = md_images_over(caps.drop_last(), content, ctx);
        match md_image_edit(caps.last(), ctx) {
            Some((full, md, url, alt)) => (replace_all(prev.0, full, md), prev.1.push((url, alt))),
            None => prev,
        }
    }
}

/// The effect of [`process_md_images`] on a README.
pub open spec fn md_images_result(content: Seq<char>, ctx: PostProcessContext) -> (
    Seq<char>,
    Seq<(Seq<char>, Seq<char>)>,
) {
    match regex_captures(MD_IMG_PATTERN@, content) {
        Some(caps) => md_images_over(caps, content, ctx),
        None => (content, Seq::empty()),
    }
}

/// Rewrites relative sources of Markdown images `![alt](src)` to raw-content URLs and
/// adds each such picture, titled by its alt text, to the gallery; the pictures added by
/// one call all carry the same date (today's, read once).
pub fn process_md_images(content: &str, ctx: &PostProcessContext, gallery: &mut Vec<GalleryItem>) -> (res:
    String)
    ensures
        res@ == md_images_result(content@, *ctx).0,
        gallery_extended(old(gallery)@, final(gallery)@, md_images_result(content@, *ctx).1),
        forall|j: int, k: int|
            old(gallery)@.len() <= j < final(gallery)@.len() && old(gallery)@.len() <= k < final(gallery)@.len()
                ==> (#[trigger] final(gallery)@[j]).created@ == (#[trigger] final(gallery)@[k]).created@,
{
    let mut result = String::from_str(content);
    let ghost start = gallery@;
    let caps = match find_captures(MD_IMG_PATTERN, content) {
        Some(c) => c,
        None => {
            return result;
        },
    };
    let ghost cv = caps@.map_values(|m: CaptureMatch| capture_view(m));
    assert(cv.take(0) =~= Seq::<(nat, Seq<Option<Seq<char>>>)>::empty());
    let today = now_date();
    let mut i: usize = 0;
    while i < caps.len()
        invariant
            i <= caps@.len(),
            cv == caps@.map_values(|m: CaptureMatch| capture_view(m)),
            regex_captures(MD_IMG_PATTERN@, content@) == Some(cv),
            result@ == md_images_over(cv.take(i as int), content@, *ctx).0,
            gallery_extended(start, gallery@, md_images_over(cv.take(i as int), content@, *ctx).1),
            forall|j: int| start.len() <= j < gallery@.len() ==> (#[trigger] gallery@[j]).created@ == today@,
        decreases caps@.len() - i,
    {
        let ghost pre = cv.take(i + 1);
        assert(pre.drop_last() =~= cv.take(i as int));
        assert(pre.last() == capture_view(caps@[i as int]));
        let ghost prev_items = md_images_over(cv.take(i as int), content@, *ctx).1;
        let g0 = group_text(&caps[i], 0);
        let g1 = group_text(&caps[i], 1);
        let g2 = group_text(&caps[i], 2);
        match (g0, g1, g2) {
            (Some(full), Some(alt), Some(src)) => {
                if is_relative_path(src.as_str()) {
                    let url = image_url_exec(src.as_str(), ctx);
                    let mut md = String::new();
                    md.append("![");
                    md.append(alt.as_str());
                    md.append("](");
                    md.append(url.as_str());
                    md.append(")");
                    result = str_replace(result.as_str(), full.as_str(), md.as_str());
                    let ghost before = gallery@;
                    gallery.push(
                        GalleryItem {
                            url,
                            title: alt,
                            description: String::new(),
                            created: today.clone(),
                        },
                    );
                    let ghost items = md_images_over(pre, content@, *ctx).1;
                    assert(items == prev_items.push((url@, alt@)));
                    assert forall|j: int| 0 <= j < items.len() implies {
                        &&& (#[trigger] gallery@[start.len() + j]).url@ == items[j].0
                        &&& gallery@[start.len() + j].title@ == items[j].1
                        &&& gallery@[start.len() + j].description@ == Seq::<char>::empty()
                    } by {
                        if j < prev_items.len() {
                            assert(gallery@[start.len() + j] == before[start.len() + j]);
                        }
                    }
                }
            },
            _ => {},
        }
        i = i + 1;
    }
    assert(cv.take(caps@.len() as int) =~= cv);
    result
}

} // verus!
