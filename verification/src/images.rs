//! Image links in issue text: file extensions, image recognition, link
//! extraction from markdown, and the list of images an issue refers to.

use vstd::prelude::*;
use crate::pattern::{
    compile_pattern, find_all, group_captures, option_string_views, pattern_compiles,
    pattern_group_captures, pattern_matches, string_views,
};
use crate::graphql::is_success_status;
use crate::text::{
    decimal, decimal_string, before_first, chars_of, contains_seq, str_contains, has_suffix_within, index_of_char,
    is_first_index, lemma_before_first, lowercase, to_lowercase,
};

verus! {

broadcast use vstd::string::group_string_axioms;

/// The part of a URL before its query string.
pub open spec fn url_path(url: Seq<char>) -> Seq<char> {
    before_first(url, '?')
}

/// The file extension an image downloaded from `url` is saved under.
pub open spec fn extension_spec(url: Seq<char>) -> Seq<char> {
    let path = url_path(url);
    if ".png"@.is_suffix_of(path) {
        "png"@
    } else if ".jpg"@.is_suffix_of(path) || ".jpeg"@.is_suffix_of(path) {
        "jpg"@
    } else if ".gif"@.is_suffix_of(path) {
        "gif"@
    } else if ".webp"@.is_suffix_of(path) {
        "webp"@
    } else if ".svg"@.is_suffix_of(path) {
        "svg"@
    } else if ".pdf"@.is_suffix_of(path) {
        "pdf"@
    } else {
        "png"@
    }
}

/// The extensions by which a URL's path marks an image.
pub open spec fn image_extensions() -> Seq<Seq<char>> {
    seq![".png"@, ".jpg"@, ".jpeg"@, ".gif"@, ".webp"@, ".svg"@, ".bmp"@]
}

/// A URL names an image when its lowercased path ends with an image extension,
/// or when it points at the tracker's upload host.
pub open spec fn is_image_url_spec(url: Seq<char>) -> bool {
    image_by_parts(lowercase(url_path(url)), url)
}

/// Length of the path of `url`, the part before the first `?`.
fn path_len(url: &Vec<char>) -> (n: usize)
    ensures
        n <= url.len(),
        url_path(url@) == url@.take(n as int),
{
    let n = index_of_char(url, '?');
    proof {
        lemma_before_first(url@, '?', n as int);
    }
    n
}

fn path_ends_with(url: &Vec<char>, n: usize, suffix: &str) -> (b: bool)
    requires
        n <= url.len(),
    ensures
        b == suffix@.is_suffix_of(url@.take(n as int)),
{
    let w = chars_of(suffix);
    has_suffix_within(url, n, &w)
}

/// Determine the file extension of an image from its URL; `png` when the path
/// has none of the known extensions.
pub fn extension_from_url(url: &str) -> (ext: &str)
    ensures
        ext@ == extension_spec(url@),
{
    let v = chars_of(url);
    let n = path_len(&v);
    if path_ends_with(&v, n, ".png") {
        "png"
    } else if path_ends_with(&v, n, ".jpg") || path_ends_with(&v, n, ".jpeg") {
        "jpg"
    } else if path_ends_with(&v, n, ".gif") {
        "gif"
    } else if path_ends_with(&v, n, ".webp") {
        "webp"
    } else if path_ends_with(&v, n, ".svg") {
        "svg"
    } else if path_ends_with(&v, n, ".pdf") {
        "pdf"
    } else {
        "png"
    }
}

/// The image test on a URL whose path has already been lowercased: the
/// lowercased path ends with an image extension, or the URL points at the
/// tracker's upload host.
pub open spec fn image_by_parts(lowercase_path: Seq<char>, url: Seq<char>) -> bool {
    ||| exists|i: int|
        0 <= i < image_extensions().len() && (#[trigger] image_extensions()[i]).is_suffix_of(
            lowercase_path,
        )
    ||| contains_seq(url, "uploads.linear.app"@)
}

/// Decides the image test from the lowercased path of `url` and `url` itself.
pub fn is_image_by_parts(lowercase_path: &str, url: &str) -> (b: bool)
    ensures
        b == image_by_parts(lowercase_path@, url@),
{
    let p = chars_of(lowercase_path);
    let exts: Vec<&str> = vec![".png", ".jpg", ".jpeg", ".gif", ".webp", ".svg", ".bmp"];
    assert(exts@.map_values(|e: &str| e@) =~= image_extensions());
    let mut i: usize = 0;
    while i < exts.len()
        invariant
            i <= exts.len(),
            exts@.map_values(|e: &str| e@) == image_extensions(),
            p@ == lowercase_path@,
            forall|j: int| 0 <= j < i ==> !(#[trigger] image_extensions()[j]).is_suffix_of(p@),
        decreases exts.len() - i,
    {
        let w = chars_of(exts[i]);
        assert(w@ == image_extensions()[i as int]);
        assert(p@.take(p.len() as int) =~= p@);
        if has_suffix_within(&p, p.len(), &w) {
            return true;
        }
        i = i + 1;
    }
    str_contains(url, "uploads.linear.app")
}

/// Check whether a URL looks like an image, by the extension of its path
/// (ignoring case) or by its host.
pub fn is_image_url(url: &str) -> (b: bool)
    ensures
        b == is_image_url_spec(url@),
{
    let v = chars_of(url);
    let n = path_len(&v);
    let path = to_lowercase(url.substring_char(0, n));
    is_image_by_parts(path.as_str(), url)
}

/// Markdown image syntax `![alt](url)`; group 1 is the URL.
pub const MARKDOWN_IMAGE_PATTERN: &'static str = "!\\[[^\\]]*\\]\\(([^)]+)\\)";

/// A bare link to the tracker's upload host.
pub const BARE_UPLOAD_PATTERN: &'static str = "https://uploads\\.linear\\.app/[^\\s)\\]]+";

/// Appends to `found` each URL of `bare`, in order, that is not already there.
pub open spec fn merge_bare_urls(found: Seq<Seq<char>>, bare: Seq<Seq<char>>) -> Seq<Seq<char>>
    decreases bare.len(),
{
    if bare.len() == 0 {
        found
    } else {
        let acc = merge_bare_urls(found, bare.drop_last());
        if acc.contains(bare.last()) {
            acc
        } else {
            acc.push(bare.last())
        }
    }
}

/// The image URLs in `text`: the targets of markdown images in order, then the
/// bare upload links not already listed. `None` where a pattern does not
/// compile or a markdown match lacks its URL group.
pub open spec fn extract_image_urls_spec(text: Seq<char>) -> Option<Seq<Seq<char>>> {
    let caps = pattern_group_captures(MARKDOWN_IMAGE_PATTERN@, text, 1);
    if !pattern_compiles(MARKDOWN_IMAGE_PATTERN@) {
        None
    } else if exists|i: int| 0 <= i < caps.len() && (#[trigger] caps[i]) is None {
        None
    } else if !pattern_compiles(BARE_UPLOAD_PATTERN@) {
        None
    } else {
        Some(
            merge_bare_urls(
                captured_texts(caps),
                pattern_matches(BARE_UPLOAD_PATTERN@, text),
            ),
        )
    }
}

/// The texts of captures that all took part in their matches.
pub open spec fn captured_texts(caps: Seq<Option<Seq<char>>>) -> Seq<Seq<char>> {
    caps.map_values(|c: Option<Seq<char>>| c->0)
}

/// Whether some string in `v` equals `s`.
pub fn contains_string(v: &Vec<String>, s: &String) -> (b: bool)
    ensures
        b == string_views(v@).contains(s@),
{
    let mut i: usize = 0;
    while i < v.len()
        invariant
            i <= v.len(),
            forall|j: int| 0 <= j < i ==> v@[j]@ != s@,
        decreases v.len() - i,
    {
        if v[i] == *s {
            assert(string_views(v@)[i as int] == s@);
            return true;
        }
        i = i + 1;
    }
    assert forall|j: int| 0 <= j < string_views(v@).len() implies string_views(v@)[j] != s@ by {
        assert(string_views(v@)[j] == v@[j]@);
    }
    false
}

/// Appends to `found` each URL of `bare`, in order, that is not already present.
pub fn merge_bare_urls_exec(found: Vec<String>, bare: Vec<String>) -> (res: Vec<String>)
    ensures
        string_views(res@) == merge_bare_urls(string_views(found@), string_views(bare@)),
{
    let mut res = found;
    let mut i: usize = 0;
    while i < bare.len()
        invariant
            i <= bare.len(),
            string_views(res@) == merge_bare_urls(
                string_views(found@),
                string_views(bare@).take(i as int),
            ),
        decreases bare.len() - i,
    {
        let ghost bv = string_views(bare@);
        assert(bv.take(i + 1).drop_last() =~= bv.take(i as int));
        assert(bv.take(i + 1).last() == bare@[i as int]@);
        if !contains_string(&res, &bare[i]) {
            let ghost before = res@;
            res.push(bare[i].clone());
            assert(string_views(res@) =~= string_views(before).push(bare@[i as int]@));
        }
        i = i + 1;
    }
    assert(string_views(bare@).take(i as int) =~= string_views(bare@));
    res
}

/// The texts of capture groups, in order, when every group took part in its
/// match; `None` when some group did not.
pub fn captured_urls(caps: Vec<Option<String>>) -> (res: Option<Vec<String>>)
    ensures
        res is Some <==> forall|i: int|
            0 <= i < caps@.len() ==> (#[trigger] option_string_views(caps@)[i]) is Some,
        res matches Some(urls) ==> string_views(urls@) == captured_texts(
            option_string_views(caps@),
        ),
{
    let ghost cv = option_string_views(caps@);
    let mut urls: Vec<String> = Vec::new();
    let mut i: usize = 0;
    while i < caps.len()
        invariant
            i <= caps.len(),
            option_string_views(caps@) == cv,
            string_views(urls@) == captured_texts(cv.take(i as int)),
            forall|j: int| 0 <= j < i ==> (#[trigger] cv[j]) is Some,
        decreases caps.len() - i,
    {
        assert(cv[i as int] == option_string_views(caps@)[i as int]);
        match &caps[i] {
            Some(u) => {
                assert(option_string_views(caps@)[i as int] == Some(u@));
                let ghost before = urls@;
                let c = u.clone();
                urls.push(c);
                assert(captured_texts(cv.take(i + 1)) =~= captured_texts(cv.take(i as int)).push(u@));
                assert(string_views(urls@) =~= string_views(before).push(u@));
            },
            None => {
                assert(cv[i as int] is None);
                return None;
            },
        }
        i = i + 1;
    }
    assert(cv.take(i as int) =~= cv);
    Some(urls)
}

/// Extract image URLs from markdown text: the targets of `![alt](url)` images,
/// then bare upload links not already captured. `None` where a pattern does not
/// compile or a markdown match lacks its URL group.
pub fn extract_image_urls(text: &str) -> (res: Option<Vec<String>>)
    ensures
        res is Some <==> extract_image_urls_spec(text@) is Some,
        res matches Some(urls) ==> extract_image_urls_spec(text@) == Some(string_views(urls@)),
{
    let markdown = match compile_pattern(MARKDOWN_IMAGE_PATTERN) {
        Ok(p) => p,
        Err(_) => return None,
    };
    let caps = group_captures(&markdown, text, 1);
    let urls = match captured_urls(caps) {
        Some(urls) => urls,
        None => return None,
    };
    let bare_pattern = match compile_pattern(BARE_UPLOAD_PATTERN) {
        Ok(p) => p,
        Err(_) => return None,
    };
    let bare = find_all(&bare_pattern, text);
    let merged = merge_bare_urls_exec(urls, bare);
    Some(merged)
}

/// What an issue holds that may refer to images, as plain text: its
/// description, the body of each comment and the URL of each attachment
/// (`None` where the issue has no such text).
pub struct IssueText {
    pub description: Option<String>,
    pub comment_bodies: Vec<Option<String>>,
    pub attachment_urls: Vec<Option<String>>,
}

/// The view of an optional string.
pub open spec fn opt_view(o: Option<String>) -> Option<Seq<char>> {
    match o {
        Some(s) => Some(s@),
        None => None,
    }
}

/// The views of a sequence of pairs of strings.
pub open spec fn pair_views(v: Seq<(String, String)>) -> Seq<(Seq<char>, Seq<char>)> {
    v.map_values(|p: (String, String)| (p.0@, p.1@))
}

/// Each URL paired with the label of where it was found.
pub open spec fn labeled(urls: Seq<Seq<char>>, label: Seq<char>) -> Seq<(Seq<char>, Seq<char>)> {
    urls.map_values(|u: Seq<char>| (u, label))
}

/// Where the URLs of the `i`-th comment were found.
pub open spec fn comment_label(i: nat) -> Seq<char> {
    "comment-"@ + decimal(i)
}

/// Where the URL of the `i`-th attachment was found.
pub open spec fn attachment_label(i: nat) -> Seq<char> {
    "attachment-"@ + decimal(i)
}

/// The image URLs of the comments in order, each labeled by its comment; `None`
/// where the extraction from some comment fails.
pub open spec fn comment_candidates(bodies: Seq<Option<Seq<char>>>) -> Option<
    Seq<(Seq<char>, Seq<char>)>,
>
    decreases bodies.len(),
{
    if bodies.len() == 0 {
        Some(seq![])
    } else {
        match comment_candidates(bodies.drop_last()) {
            None => None,
            Some(prev) => match bodies.last() {
                None => Some(prev),
                Some(body) => match extract_image_urls_spec(body) {
                    None => None,
                    Some(urls) => Some(
                        prev + labeled(urls, comment_label((bodies.len() - 1) as nat)),
                    ),
                },
            },
        }
    }
}

/// The attachments whose URL names an image, each labeled by its attachment.
pub open spec fn attachment_candidates(urls: Seq<Option<Seq<char>>>) -> Seq<
    (Seq<char>, Seq<char>),
>
    decreases urls.len(),
{
    if urls.len() == 0 {
        seq![]
    } else {
        let prev = attachment_candidates(urls.drop_last());
        match urls.last() {
            Some(u) => if is_image_url_spec(u) {
                prev.push((u, attachment_label((urls.len() - 1) as nat)))
            } else {
                prev
            },
            None => prev,
        }
    }
}

/// The images of the description, then of the comments, then of the
/// attachments, each with where it was found; `None` where an extraction fails.
pub open spec fn issue_candidates(
    description: Option<Seq<char>>,
    bodies: Seq<Option<Seq<char>>>,
    attachments: Seq<Option<Seq<char>>>,
) -> Option<Seq<(Seq<char>, Seq<char>)>> {
    let from_description = match description {
        Some(d) => match extract_image_urls_spec(d) {
            Some(urls) => Some(labeled(urls, "description"@)),
            None => None,
        },
        None => Some(seq![]),
    };
    match (from_description, comment_candidates(bodies)) {
        (Some(d), Some(c)) => Some(d + c + attachment_candidates(attachments)),
        _ => None,
    }
}

/// The URLs of a sequence of labeled URLs.
pub open spec fn urls_of(c: Seq<(Seq<char>, Seq<char>)>) -> Seq<Seq<char>> {
    c.map_values(|p: (Seq<char>, Seq<char>)| p.0)
}

/// Keeps the first occurrence of each URL, with its label.
pub open spec fn first_by_url(c: Seq<(Seq<char>, Seq<char>)>) -> Seq<(Seq<char>, Seq<char>)>
    decreases c.len(),
{
    if c.len() == 0 {
        c
    } else {
        let prev = first_by_url(c.drop_last());
        if urls_of(prev).contains(c.last().0) {
            prev
        } else {
            prev.push(c.last())
        }
    }
}

/// The images an issue refers to, each URL once, with where it was first found.
pub open spec fn issue_images_spec(issue: IssueText) -> Option<Seq<(Seq<char>, Seq<char>)>> {
    match issue_candidates(
        opt_view(issue.description),
        option_string_views(issue.comment_bodies@),
        option_string_views(issue.attachment_urls@),
    ) {
        Some(c) => Some(first_by_url(c)),
        None => None,
    }
}

fn push_labeled(cands: &mut Vec<(String, String)>, urls: &Vec<String>, label: &String)
    ensures
        pair_views(final(cands)@) == pair_views(old(cands)@) + labeled(string_views(urls@), label@),
{
    let ghost start = pair_views(cands@);
    let mut i: usize = 0;
    while i < urls.len()
        invariant
            i <= urls.len(),
            pair_views(cands@) == start + labeled(string_views(urls@).take(i as int), label@),
        decreases urls.len() - i,
    {
        let ghost before = cands@;
        cands.push((urls[i].clone(), label.clone()));
        assert(labeled(string_views(urls@).take(i + 1), label@) =~= labeled(
            string_views(urls@).take(i as int),
            label@,
        ).push((urls@[i as int]@, label@)));
        assert(pair_views(cands@) =~= pair_views(before).push((urls@[i as int]@, label@)));
        i = i + 1;
    }
    assert(string_views(urls@).take(i as int) =~= string_views(urls@));
}

proof fn lemma_comment_candidates_fail(bodies: Seq<Option<Seq<char>>>, i: int)
    requires
        0 <= i <= bodies.len(),
        comment_candidates(bodies.take(i)) is None,
    ensures
        comment_candidates(bodies) is None,
    decreases bodies.len(),
{
    if i < bodies.len() {
        assert(bodies.drop_last().take(i) =~= bodies.take(i));
        lemma_comment_candidates_fail(bodies.drop_last(), i);
    } else {
        assert(bodies.take(i) =~= bodies);
    }
}

fn contains_url(v: &Vec<(String, String)>, url: &String) -> (b: bool)
    ensures
        b == urls_of(pair_views(v@)).contains(url@),
{
    let mut i: usize = 0;
    while i < v.len()
        invariant
            i <= v.len(),
            forall|j: int| 0 <= j < i ==> v@[j].0@ != url@,
        decreases v.len() - i,
    {
        if v[i].0 == *url {
            assert(urls_of(pair_views(v@))[i as int] == url@);
            return true;
        }
        i = i + 1;
    }
    assert forall|j: int| 0 <= j < urls_of(pair_views(v@)).len() implies urls_of(
        pair_views(v@),
    )[j] != url@ by {
        assert(urls_of(pair_views(v@))[j] == v@[j].0@);
    }
    false
}

/// Collect the images an issue refers to: those of its description, of each
/// comment (labeled `comment-<i>`) and each attachment whose URL names an
/// image (labeled `attachment-<i>`), each URL once, with where it was first
/// found. `None` where the extraction from some text fails.
pub fn collect_issue_images(issue: &IssueText) -> (res: Option<Vec<(String, String)>>)
    ensures
        res is Some <==> issue_images_spec(*issue) is Some,
        res matches Some(images) ==> issue_images_spec(*issue) == Some(pair_views(images@)),
{
    let ghost bodies = option_string_views(issue.comment_bodies@);
    let ghost attachments = option_string_views(issue.attachment_urls@);
    let mut cands: Vec<(String, String)> = Vec::new();
    match &issue.description {
        Some(d) => match extract_image_urls(d.as_str()) {
            Some(urls) => {
                push_labeled(&mut cands, &urls, &String::from_str("description"));
            },
            None => return None,
        },
        None => {},
    }
    let ghost from_description = pair_views(cands@);
    assert(bodies.take(0) =~= Seq::<Option<Seq<char>>>::empty());
    assert(pair_views(cands@) =~= from_description + comment_candidates(bodies.take(0))->0);
    let mut i: usize = 0;
    while i < issue.comment_bodies.len()
        invariant
            i <= issue.comment_bodies.len(),
            bodies == option_string_views(issue.comment_bodies@),
            comment_candidates(bodies.take(i as int)) is Some,
            pair_views(cands@) == from_description + comment_candidates(bodies.take(i as int))->0,
        decreases issue.comment_bodies.len() - i,
    {
        let ghost prev = bodies.take(i as int);
        let ghost next = bodies.take(i + 1);
        assert(next.drop_last() =~= prev);
        assert(next.last() == bodies[i as int]);
        assert(bodies[i as int] == opt_view(issue.comment_bodies@[i as int]));
        match &issue.comment_bodies[i] {
            Some(body) => match extract_image_urls(body.as_str()) {
                Some(urls) => {
                    let label = String::from_str("comment-").concat(decimal_string(i).as_str());
                    push_labeled(&mut cands, &urls, &label);
                    assert(pair_views(cands@) =~= from_description + comment_candidates(next)->0);
                },
                None => {
                    proof {
                        lemma_comment_candidates_fail(bodies, i + 1);
                    }
                    return None;
                },
            },
            None => {},
        }
        i = i + 1;
    }
    assert(bodies.take(i as int) =~= bodies);
    let ghost from_comments = pair_views(cands@);
    assert(attachments.take(0) =~= Seq::<Option<Seq<char>>>::empty());
    assert(pair_views(cands@) =~= from_comments + attachment_candidates(attachments.take(0)));
    let mut k: usize = 0;
    while k < issue.attachment_urls.len()
        invariant
            k <= issue.attachment_urls.len(),
            attachments == option_string_views(issue.attachment_urls@),
            pair_views(cands@) == from_comments + attachment_candidates(attachments.take(k as int)),
        decreases issue.attachment_urls.len() - k,
    {
        let ghost prev = attachments.take(k as int);
        let ghost next = attachments.take(k + 1);
        assert(next.drop_last() =~= prev);
        assert(next.last() == attachments[k as int]);
        assert(attachments[k as int] == opt_view(issue.attachment_urls@[k as int]));
        match &issue.attachment_urls[k] {
            Some(url) => {
                if is_image_url(url.as_str()) {
                    let label = String::from_str("attachment-").concat(decimal_string(k).as_str());
                    let ghost before = cands@;
                    cands.push((url.clone(), label));
                    assert(pair_views(cands@) =~= pair_views(before).push(
                        (url@, attachment_label(k as nat)),
                    ));
                }
            },
            None => {},
        }
        assert(pair_views(cands@) =~= from_comments + attachment_candidates(next));
        k = k + 1;
    }
    assert(attachments.take(k as int) =~= attachments);
    assert(issue_candidates(opt_view(issue.description), bodies, attachments) == Some(
        pair_views(cands@),
    ));
    let ghost cv = pair_views(cands@);
    let mut images: Vec<(String, String)> = Vec::new();
    let mut j: usize = 0;
    while j < cands.len()
        invariant
            j <= cands.len(),
            cv == pair_views(cands@),
            pair_views(images@) == first_by_url(cv.take(j as int)),
        decreases cands.len() - j,
    {
        assert(cv.take(j + 1).drop_last() =~= cv.take(j as int));
        assert(cv.take(j + 1).last() == (cands@[j as int].0@, cands@[j as int].1@));
        if !contains_url(&images, &cands[j].0) {
            let ghost before = images@;
            images.push((cands[j].0.clone(), cands[j].1.clone()));
            assert(pair_views(images@) =~= pair_views(before).push(cv[j as int]));
        }
        j = j + 1;
    }
    assert(cv.take(j as int) =~= cv);
    Some(images)
}

/// The file name an image is saved under: `image-<index>.<extension>`.
pub fn image_filename(index: usize, url: &str) -> (name: String)
    ensures
        name@ == "image-"@ + decimal(index as nat) + "."@ + extension_spec(url@),
{
    String::from_str("image-").concat(decimal_string(index).as_str()).concat(".").concat(
        extension_from_url(url),
    )
}

/// Where the images of an issue are saved when no directory is given.
pub fn default_output_dir(identifier: &str) -> (dir: String)
    ensures
        dir@ == "/tmp/linear-images/"@ + identifier@,
{
    String::from_str("/tmp/linear-images/").concat(identifier)
}

/// What to do with the reply to a download request.
#[derive(Debug)]
pub enum DownloadStep {
    /// Save the body of the reply.
    SaveBody,
    /// Ask again, without the authorisation header.
    RetryWithoutAuth,
    /// Give up with this message.
    Fail(String),
}

/// Judges the reply to a download request: a 2xx reply is saved; a refused
/// request made with the authorisation header is tried again without it; a
/// refused request made without it fails with its status.
pub fn download_step(with_auth: bool, status_code: u16, status_line: &str) -> (step: DownloadStep)
    ensures
        is_success_status(status_code) ==> step is SaveBody,
        !is_success_status(status_code) && with_auth ==> step is RetryWithoutAuth,
        !is_success_status(status_code) && !with_auth ==> (step matches DownloadStep::Fail(m) && m@
            == "HTTP "@ + status_line@),
{
    if 200 <= status_code && status_code < 300 {
        DownloadStep::SaveBody
    } else if with_auth {
        DownloadStep::RetryWithoutAuth
    } else {
        DownloadStep::Fail(String::from_str("HTTP ").concat(status_line))
    }
}

/// Merging keeps the markdown URLs first and in order, adds exactly the bare
/// links not yet listed, and none of them twice.
pub proof fn law_merge_bare_urls(found: Seq<Seq<char>>, bare: Seq<Seq<char>>)
    ensures
        found.is_prefix_of(merge_bare_urls(found, bare)),
        forall|x: Seq<char>| #[trigger]
            merge_bare_urls(found, bare).contains(x) <==> found.contains(x) || bare.contains(x),
        forall|i: int, j: int|
            found.len() <= i < j < merge_bare_urls(found, bare).len() ==> merge_bare_urls(
                found,
                bare,
            )[i] != merge_bare_urls(found, bare)[j],
        forall|i: int|
            found.len() <= i < merge_bare_urls(found, bare).len() ==> !found.contains(
                #[trigger] merge_bare_urls(found, bare)[i],
            ),
    decreases bare.len(),
{
    if bare.len() > 0 {
        let prev = bare.drop_last();
        let acc = merge_bare_urls(found, prev);
        let x = bare.last();
        law_merge_bare_urls(found, prev);
        let r = merge_bare_urls(found, bare);
        assert forall|y: Seq<char>| bare.contains(y) <==> prev.contains(y) || y == x by {
            if bare.contains(y) {
                let k = choose|k: int| 0 <= k < bare.len() && bare[k] == y;
                if k < bare.len() - 1 {
                    assert(prev[k] == y);
                }
            }
            if prev.contains(y) {
                let k = choose|k: int| 0 <= k < prev.len() && prev[k] == y;
                assert(bare[k] == y);
            }
            if y == x {
                assert(bare[bare.len() - 1] == y);
            }
        }
        if !acc.contains(x) {
            assert(r == acc.push(x));
            assert forall|y: Seq<char>| #[trigger] r.contains(y) <==> acc.contains(y) || y == x by {
                if r.contains(y) {
                    let k = choose|k: int| 0 <= k < r.len() && r[k] == y;
                    if k < acc.len() {
                        assert(acc[k] == y);
                    }
                }
                if acc.contains(y) {
                    let k = choose|k: int| 0 <= k < acc.len() && acc[k] == y;
                    assert(r[k] == y);
                }
                if y == x {
                    assert(r[acc.len() as int] == y);
                }
            }
            assert(found.is_prefix_of(r)) by {
                assert(r.subrange(0, found.len() as int) =~= acc.subrange(0, found.len() as int));
            }
            assert forall|i: int| found.len() <= i < r.len() implies !found.contains(
                #[trigger] r[i],
            ) by {
                if i < acc.len() {
                    assert(r[i] == acc[i]);
                } else {
                    assert(r[i] == x);
                    if found.contains(x) {
                        let k = choose|k: int| 0 <= k < found.len() && found[k] == x;
                        assert(acc[k] == x);
                    }
                }
            }
            assert forall|i: int, j: int| found.len() <= i < j < r.len() implies r[i] != r[j] by {
                if j < acc.len() {
                    assert(r[i] == acc[i] && r[j] == acc[j]);
                } else {
                    assert(r[i] == acc[i]);
                    assert(r[j] == x);
                }
            }
        }
    } else {
        assert(found.subrange(0, found.len() as int) =~= found);
    }
}

/// Each URL is kept once, every candidate URL is kept, and each kept entry is
/// the first candidate with its URL.
pub proof fn law_first_by_url(c: Seq<(Seq<char>, Seq<char>)>)
    ensures
        forall|i: int, j: int|
            0 <= i < j < first_by_url(c).len() ==> first_by_url(c)[i].0 != first_by_url(c)[j].0,
        forall|u: Seq<char>| #[trigger] urls_of(first_by_url(c)).contains(u) <==> urls_of(c).contains(u),
        forall|i: int|
            0 <= i < first_by_url(c).len() ==> exists|k: int|
                0 <= k < c.len() && c[k] == #[trigger] first_by_url(c)[i] && forall|m: int|
                    0 <= m < k ==> c[m].0 != c[k].0,
    decreases c.len(),
{
    if c.len() > 0 {
        let p = c.drop_last();
        let prev = first_by_url(p);
        let last = c.last();
        law_first_by_url(p);
        let r = first_by_url(c);
        assert forall|u: Seq<char>| urls_of(c).contains(u) <==> urls_of(p).contains(u) || u == last.0 by {
            if urls_of(c).contains(u) {
                let k = choose|k: int| 0 <= k < urls_of(c).len() && urls_of(c)[k] == u;
                if k < c.len() - 1 {
                    assert(urls_of(p)[k] == u);
                } else {
                    assert(c[k] == last);
                }
            }
            if urls_of(p).contains(u) {
                let k = choose|k: int| 0 <= k < urls_of(p).len() && urls_of(p)[k] == u;
                assert(urls_of(c)[k] == u);
            }
            if u == last.0 {
                assert(urls_of(c)[c.len() - 1] == u);
            }
        }
        if urls_of(prev).contains(last.0) {
            assert(r == prev);
            assert forall|i: int| 0 <= i < r.len() implies exists|k: int|
                0 <= k < c.len() && c[k] == #[trigger] r[i] && forall|m: int|
                    0 <= m < k ==> c[m].0 != c[k].0 by {
                let k = choose|k: int|
                    0 <= k < p.len() && p[k] == #[trigger] prev[i] && forall|m: int|
                        0 <= m < k ==> p[m].0 != p[k].0;
                assert(c[k] == p[k]);
                assert forall|m: int| 0 <= m < k implies c[m].0 != c[k].0 by {
                    assert(c[m] == p[m]);
                }
            }
        } else {
            assert(r == prev.push(last));
            assert(urls_of(r) =~= urls_of(prev).push(last.0));
            assert forall|u: Seq<char>| #[trigger] urls_of(r).contains(u) <==> urls_of(prev).contains(u)
                || u == last.0 by {
                if urls_of(r).contains(u) {
                    let k = choose|k: int| 0 <= k < urls_of(r).len() && urls_of(r)[k] == u;
                    if k < prev.len() {
                        assert(urls_of(prev)[k] == u);
                    }
                }
                if urls_of(prev).contains(u) {
                    let k = choose|k: int| 0 <= k < urls_of(prev).len() && urls_of(prev)[k] == u;
                    assert(urls_of(r)[k] == u);
                }
                if u == last.0 {
                    assert(urls_of(r)[prev.len() as int] == u);
                }
            }
            assert forall|i: int, j: int| 0 <= i < j < r.len() implies r[i].0 != r[j].0 by {
                if j < prev.len() {
                    assert(r[i] == prev[i] && r[j] == prev[j]);
                } else {
                    assert(r[i] == prev[i]);
                    assert(urls_of(prev)[i] == prev[i].0);
                }
            }
            assert forall|i: int| 0 <= i < r.len() implies exists|k: int|
                0 <= k < c.len() && c[k] == #[trigger] r[i] && forall|m: int|
                    0 <= m < k ==> c[m].0 != c[k].0 by {
                if i < prev.len() {
                    assert(r[i] == prev[i]);
                    let k = choose|k: int|
                        0 <= k < p.len() && p[k] == #[trigger] prev[i] && forall|m: int|
                            0 <= m < k ==> p[m].0 != p[k].0;
                    assert(c[k] == p[k]);
                    assert forall|m: int| 0 <= m < k implies c[m].0 != c[k].0 by {
                        assert(c[m] == p[m]);
                    }
                } else {
                    let k = c.len() - 1;
                    assert(c[k] == r[i]);
                    assert forall|m: int| 0 <= m < k implies c[m].0 != c[k].0 by {
                        assert(c[m] == p[m]);
                        assert(urls_of(p)[m] == p[m].0);
                    }
                }
            }
        }
    }
}

/// The image test, spelled out: the lowercased path ends with `.png`, `.jpg`,
/// `.jpeg`, `.gif`, `.webp`, `.svg` or `.bmp`, or the URL holds the upload host.
pub proof fn law_image_by_parts(lowercase_path: Seq<char>, url: Seq<char>)
    ensures
        image_by_parts(lowercase_path, url) <==> {
            ||| ".png"@.is_suffix_of(lowercase_path)
            ||| ".jpg"@.is_suffix_of(lowercase_path)
            ||| ".jpeg"@.is_suffix_of(lowercase_path)
            ||| ".gif"@.is_suffix_of(lowercase_path)
            ||| ".webp"@.is_suffix_of(lowercase_path)
            ||| ".svg"@.is_suffix_of(lowercase_path)
            ||| ".bmp"@.is_suffix_of(lowercase_path)
            ||| contains_seq(url, "uploads.linear.app"@)
        },
{
    let e = image_extensions();
    assert(e[0] == ".png"@ && e[1] == ".jpg"@ && e[2] == ".jpeg"@ && e[3] == ".gif"@);
    assert(e[4] == ".webp"@ && e[5] == ".svg"@ && e[6] == ".bmp"@);
}

/// A URL names an image exactly when the lowercased part of it before the
/// first `?` ends with an image extension, or it holds the upload host.
pub proof fn law_is_image_url(url: Seq<char>)
    ensures
        is_image_url_spec(url) <==> {
            ||| ".png"@.is_suffix_of(lowercase(before_first(url, '?')))
            ||| ".jpg"@.is_suffix_of(lowercase(before_first(url, '?')))
            ||| ".jpeg"@.is_suffix_of(lowercase(before_first(url, '?')))
            ||| ".gif"@.is_suffix_of(lowercase(before_first(url, '?')))
            ||| ".webp"@.is_suffix_of(lowercase(before_first(url, '?')))
            ||| ".svg"@.is_suffix_of(lowercase(before_first(url, '?')))
            ||| ".bmp"@.is_suffix_of(lowercase(before_first(url, '?')))
            ||| contains_seq(url, "uploads.linear.app"@)
        },
        contains_seq(url, "uploads.linear.app"@) ==> is_image_url_spec(url),
{
    law_image_by_parts(lowercase(before_first(url, '?')), url);
}

/// The part of `p + "?" + q` before its first `?` is `p`, when `p` has none.
proof fn lemma_path_of_query(p: Seq<char>, q: Seq<char>)
    requires
        !p.contains('?'),
    ensures
        before_first(p + seq!['?'] + q, '?') == p,
        before_first(p, '?') == p,
{
    let u = p + seq!['?'] + q;
    assert(is_first_index(u, '?', p.len() as int)) by {
        assert forall|j: int| 0 <= j < p.len() implies u[j] != '?' by {
            assert(u[j] == p[j]);
        }
    }
    lemma_before_first(u, '?', p.len() as int);
    assert(u.take(p.len() as int) =~= p);
    lemma_before_first(p, '?', p.len() as int);
    assert(p.take(p.len() as int) =~= p);
}

/// The extension of an image depends only on the URL's path: a query string
/// changes nothing.
pub proof fn law_extension_ignores_query(p: Seq<char>, q: Seq<char>)
    requires
        !p.contains('?'),
    ensures
        extension_spec(p + seq!['?'] + q) == extension_spec(p),
{
    lemma_path_of_query(p, q);
}

/// The extension chosen for a path (a URL without `?`), spelled out: the first
/// of `.png`, `.jpg` or `.jpeg`, `.gif`, `.webp`, `.svg`, `.pdf` that ends it,
/// and `png` when none does.
pub proof fn law_extension_by_suffix(p: Seq<char>)
    requires
        !p.contains('?'),
    ensures
        ".png"@.is_suffix_of(p) ==> extension_spec(p) == "png"@,
        !".png"@.is_suffix_of(p) && (".jpg"@.is_suffix_of(p) || ".jpeg"@.is_suffix_of(p))
            ==> extension_spec(p) == "jpg"@,
        !".png"@.is_suffix_of(p) && !".jpg"@.is_suffix_of(p) && !".jpeg"@.is_suffix_of(p)
            && ".gif"@.is_suffix_of(p) ==> extension_spec(p) == "gif"@,
        !".png"@.is_suffix_of(p) && !".jpg"@.is_suffix_of(p) && !".jpeg"@.is_suffix_of(p)
            && !".gif"@.is_suffix_of(p) && ".webp"@.is_suffix_of(p) ==> extension_spec(p)
            == "webp"@,
        !".png"@.is_suffix_of(p) && !".jpg"@.is_suffix_of(p) && !".jpeg"@.is_suffix_of(p)
            && !".gif"@.is_suffix_of(p) && !".webp"@.is_suffix_of(p) && ".svg"@.is_suffix_of(p)
            ==> extension_spec(p) == "svg"@,
        !".png"@.is_suffix_of(p) && !".jpg"@.is_suffix_of(p) && !".jpeg"@.is_suffix_of(p)
            && !".gif"@.is_suffix_of(p) && !".webp"@.is_suffix_of(p) && !".svg"@.is_suffix_of(p)
            && ".pdf"@.is_suffix_of(p) ==> extension_spec(p) == "pdf"@,
        !".png"@.is_suffix_of(p) && !".jpg"@.is_suffix_of(p) && !".jpeg"@.is_suffix_of(p)
            && !".gif"@.is_suffix_of(p) && !".webp"@.is_suffix_of(p) && !".svg"@.is_suffix_of(p)
            && !".pdf"@.is_suffix_of(p) ==> extension_spec(p) == "png"@,
{
    lemma_path_of_query(p, Seq::empty());
}

/// Exactly the attachments whose URL names an image are candidates, each
/// labeled `attachment-<its index>`.
pub proof fn law_attachment_candidates(urls: Seq<Option<Seq<char>>>)
    ensures
        forall|i: int, u: Seq<char>|
            0 <= i < urls.len() && urls[i] == Some(u) && is_image_url_spec(u)
                ==> #[trigger] attachment_candidates(urls).contains(
                (u, "attachment-"@ + decimal(i as nat)),
            ),
        forall|k: int|
            0 <= k < attachment_candidates(urls).len() ==> exists|i: int|
                0 <= i < urls.len() && urls[i] == Some(
                    (#[trigger] attachment_candidates(urls)[k]).0,
                ) && is_image_url_spec(attachment_candidates(urls)[k].0)
                    && attachment_candidates(urls)[k].1 == "attachment-"@ + decimal(i as nat),
    decreases urls.len(),
{
    if urls.len() > 0 {
        let init = urls.drop_last();
        let prev = attachment_candidates(init);
        let c = attachment_candidates(urls);
        law_attachment_candidates(init);
        let n = urls.len() - 1;
        assert forall|i: int, u: Seq<char>|
            0 <= i < urls.len() && urls[i] == Some(u) && is_image_url_spec(u) implies #[trigger] c.contains(
            (u, "attachment-"@ + decimal(i as nat)),
        ) by {
            if i < n {
                assert(init[i] == urls[i]);
                assert(prev.contains((u, "attachment-"@ + decimal(i as nat))));
                let k = choose|k: int| 0 <= k < prev.len() && prev[k] == (u, "attachment-"@ + decimal(i as nat));
                assert(c[k] == prev[k]);
            } else {
                assert(c[prev.len() as int] == (u, attachment_label(n as nat)));
            }
        }
        assert forall|k: int| 0 <= k < c.len() implies exists|i: int|
            0 <= i < urls.len() && urls[i] == Some((#[trigger] c[k]).0) && is_image_url_spec(c[k].0)
                && c[k].1 == "attachment-"@ + decimal(i as nat) by {
            if k < prev.len() {
                assert(c[k] == prev[k]);
                let i = choose|i: int|
                    0 <= i < init.len() && init[i] == Some((#[trigger] prev[k]).0) && is_image_url_spec(
                        prev[k].0,
                    ) && prev[k].1 == "attachment-"@ + decimal(i as nat);
                assert(urls[i] == init[i]);
            } else {
                assert(urls[n] == Some(c[k].0));
            }
        }
    }
}

/// An attachment that points at the upload host is always among the images of
/// its issue, whatever its path.
pub proof fn law_upload_attachments_kept(issue: IssueText, i: int, u: Seq<char>)
    requires
        issue_images_spec(issue) is Some,
        0 <= i < issue.attachment_urls@.len(),
        opt_view(issue.attachment_urls@[i]) == Some(u),
        contains_seq(u, "uploads.linear.app"@),
    ensures
        urls_of(issue_images_spec(issue)->0).contains(u),
{
    let atts = option_string_views(issue.attachment_urls@);
    assert(atts[i] == Some(u));
    law_is_image_url(u);
    law_attachment_candidates(atts);
    let ac = attachment_candidates(atts);
    assert(ac.contains((u, "attachment-"@ + decimal(i as nat))));
    let k = choose|k: int| 0 <= k < ac.len() && ac[k] == (u, "attachment-"@ + decimal(i as nat));
    let cands = issue_candidates(opt_view(issue.description), option_string_views(issue.comment_bodies@), atts)->0;
    let pre = cands.len() - ac.len();
    assert(cands[pre + k] == ac[k]);
    assert(urls_of(cands)[pre + k] == u);
    assert(urls_of(cands).contains(u));
    law_first_by_url(cands);
}

proof fn lemma_labeled_contains(urls: Seq<Seq<char>>, label: Seq<char>)
    ensures
        forall|u: Seq<char>| urls.contains(u) ==> #[trigger] labeled(urls, label).contains((u, label)),
        forall|k: int|
            0 <= k < labeled(urls, label).len() ==> urls.contains(
                (#[trigger] labeled(urls, label)[k]).0,
            ) && labeled(urls, label)[k].1 == label,
{
    let l = labeled(urls, label);
    assert forall|u: Seq<char>| urls.contains(u) implies #[trigger] l.contains((u, label)) by {
        let k = choose|k: int| 0 <= k < urls.len() && urls[k] == u;
        assert(l[k] == (u, label));
    }
    assert forall|k: int| 0 <= k < l.len() implies urls.contains((#[trigger] l[k]).0) && l[k].1
        == label by {
        assert(l[k] == (urls[k], label));
    }
}

/// Some comment holds the image URL, and the label names that comment.
pub open spec fn found_in_comment(
    bodies: Seq<Option<Seq<char>>>,
    candidate: (Seq<char>, Seq<char>),
) -> bool {
    exists|i: int|
        0 <= i < bodies.len() && (#[trigger] bodies[i]) is Some && extract_image_urls_spec(
            bodies[i]->0,
        )->0.contains(candidate.0) && candidate.1 == "comment-"@ + decimal(i as nat)
}

/// When every comment's images can be extracted, the comment candidates are
/// exactly the images of each comment, each labeled `comment-<its index>`.
pub proof fn law_comment_candidates(bodies: Seq<Option<Seq<char>>>)
    requires
        comment_candidates(bodies) is Some,
    ensures
        forall|i: int|
            0 <= i < bodies.len() && (#[trigger] bodies[i]) is Some ==> extract_image_urls_spec(
                bodies[i]->0,
            ) is Some,
        forall|i: int, u: Seq<char>|
            0 <= i < bodies.len() && bodies[i] is Some && extract_image_urls_spec(
                bodies[i]->0,
            )->0.contains(u) ==> #[trigger] comment_candidates(bodies)->0.contains(
                (u, "comment-"@ + decimal(i as nat)),
            ),
        forall|k: int|
            0 <= k < comment_candidates(bodies)->0.len() ==> found_in_comment(
                bodies,
                #[trigger] comment_candidates(bodies)->0[k],
            ),
    decreases bodies.len(),
{
    if bodies.len() > 0 {
        let init = bodies.drop_last();
        let n = bodies.len() - 1;
        let prev = comment_candidates(init)->0;
        let c = comment_candidates(bodies)->0;
        law_comment_candidates(init);
        let extra = match bodies.last() {
            Some(b) => labeled(extract_image_urls_spec(b)->0, comment_label(n as nat)),
            None => Seq::empty(),
        };
        assert(c == prev + extra);
        if let Some(b) = bodies.last() {
            lemma_labeled_contains(extract_image_urls_spec(b)->0, comment_label(n as nat));
        }
        assert forall|i: int|
            0 <= i < bodies.len() && (#[trigger] bodies[i]) is Some implies extract_image_urls_spec(
            bodies[i]->0,
        ) is Some by {
            if i < n {
                assert(init[i] == bodies[i]);
            }
        }
        assert forall|i: int, u: Seq<char>|
            0 <= i < bodies.len() && bodies[i] is Some && extract_image_urls_spec(
                bodies[i]->0,
            )->0.contains(u) implies #[trigger] c.contains((u, "comment-"@ + decimal(i as nat))) by {
            if i < n {
                assert(init[i] == bodies[i]);
                assert(prev.contains((u, "comment-"@ + decimal(i as nat))));
                let k = choose|k: int| 0 <= k < prev.len() && prev[k] == (u, "comment-"@ + decimal(i as nat));
                assert(c[k] == prev[k]);
            } else {
                assert(extra.contains((u, comment_label(n as nat))));
                let k = choose|k: int| 0 <= k < extra.len() && extra[k] == (u, comment_label(n as nat));
                assert(c[prev.len() + k] == extra[k]);
            }
        }
        assert forall|k: int| 0 <= k < c.len() implies found_in_comment(bodies, #[trigger] c[k]) by {
            if k < prev.len() {
                assert(c[k] == prev[k]);
                assert(found_in_comment(init, prev[k]));
                let i = choose|i: int|
                    0 <= i < init.len() && (#[trigger] init[i]) is Some && extract_image_urls_spec(
                        init[i]->0,
                    )->0.contains(prev[k].0) && prev[k].1 == "comment-"@ + decimal(i as nat);
                assert(bodies[i] == init[i]);
            } else {
                assert(c[k] == extra[k - prev.len()]);
                assert(bodies[n] is Some);
            }
        }
    }
}

/// The description's images are candidates labeled `description`, and they
/// come first.
pub proof fn law_description_candidates(
    d: Seq<char>,
    bodies: Seq<Option<Seq<char>>>,
    attachments: Seq<Option<Seq<char>>>,
)
    requires
        issue_candidates(Some(d), bodies, attachments) is Some,
    ensures
        extract_image_urls_spec(d) is Some,
        forall|k: int|
            0 <= k < extract_image_urls_spec(d)->0.len() ==> #[trigger] issue_candidates(
                Some(d),
                bodies,
                attachments,
            )->0[k] == (extract_image_urls_spec(d)->0[k], "description"@),
{
    let us = extract_image_urls_spec(d)->0;
    let c = issue_candidates(Some(d), bodies, attachments)->0;
    assert forall|k: int| 0 <= k < us.len() implies #[trigger] c[k] == (us[k], "description"@) by {
        assert(labeled(us, "description"@)[k] == (us[k], "description"@));
    }
}

} // verus!
