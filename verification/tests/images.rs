use query::images::{
    captured_urls, collect_issue_images, default_output_dir, download_step, extension_from_url,
    extract_image_urls, image_filename, is_image_url, merge_bare_urls_exec, DownloadStep,
    IssueText,
};

#[test]
fn test_extract_markdown_images() {
    let text = "Here is an image: ![screenshot](https://uploads.linear.app/abc/def.png)";
    let urls = extract_image_urls(text).unwrap();
    assert_eq!(urls.len(), 1);
    assert_eq!(urls[0], "https://uploads.linear.app/abc/def.png");
}

#[test]
fn test_extract_multiple_images() {
    let text = "![a](https://uploads.linear.app/1.png) text ![b](https://example.com/2.jpg)";
    let urls = extract_image_urls(text).unwrap();
    assert_eq!(urls.len(), 2);
}

#[test]
fn test_extract_bare_linear_urls() {
    let text = "Check this: https://uploads.linear.app/org/file.png and more text";
    let urls = extract_image_urls(text).unwrap();
    assert_eq!(urls.len(), 1);
    assert!(urls[0].contains("uploads.linear.app"));
}

#[test]
fn test_no_duplicate_urls() {
    let text = "![img](https://uploads.linear.app/a.png) also https://uploads.linear.app/a.png";
    let urls = extract_image_urls(text).unwrap();
    assert_eq!(urls.len(), 1);
}

#[test]
fn test_no_images() {
    let text = "Just regular text with no images";
    let urls = extract_image_urls(text).unwrap();
    assert!(urls.is_empty());
}

#[test]
fn test_extension_from_url() {
    assert_eq!(extension_from_url("https://example.com/file.png"), "png");
    assert_eq!(extension_from_url("https://example.com/file.jpg"), "jpg");
    assert_eq!(extension_from_url("https://example.com/file.jpeg"), "jpg");
    assert_eq!(extension_from_url("https://example.com/file.gif"), "gif");
    assert_eq!(extension_from_url("https://example.com/file.webp"), "webp");
    assert_eq!(extension_from_url("https://example.com/file?query=1"), "png"); // default
}

#[test]
fn test_extension_from_url_with_query_params() {
    assert_eq!(
        extension_from_url("https://example.com/file.jpg?token=abc"),
        "jpg"
    );
}

#[test]
fn test_is_image_url() {
    assert!(is_image_url("https://example.com/file.png"));
    assert!(is_image_url("https://example.com/file.jpg"));
    assert!(is_image_url("https://uploads.linear.app/anything"));
    assert!(!is_image_url("https://example.com/file.txt"));
}

#[test]
fn extension_of_remaining_kinds() {
    assert_eq!(extension_from_url("https://example.com/a.svg"), "svg");
    assert_eq!(extension_from_url("https://example.com/a.pdf"), "pdf");
    assert_eq!(extension_from_url("https://example.com/a.bmp"), "png");
    assert_eq!(extension_from_url(""), "png");
    // the query string is not part of the path
    assert_eq!(extension_from_url("https://example.com/a?x=b.gif"), "png");
    // the path is compared as written
    assert_eq!(extension_from_url("https://example.com/A.PNG"), "png");
    assert_eq!(extension_from_url("https://example.com/A.GIF"), "png");
}

#[test]
fn image_url_ignores_case_of_extension() {
    assert!(is_image_url("https://example.com/PHOTO.JPEG"));
    assert!(is_image_url("https://example.com/pic.Bmp?size=2"));
    assert!(!is_image_url("https://example.com/file.txt?x=.png"));
    assert!(!is_image_url("https://UPLOADS.LINEAR.APP/anything"));
}

#[test]
fn markdown_images_come_before_bare_links() {
    let text = "https://uploads.linear.app/b.png then ![x](https://example.com/a.png)";
    let urls = extract_image_urls(text).unwrap();
    assert_eq!(
        urls,
        vec![
            "https://example.com/a.png".to_string(),
            "https://uploads.linear.app/b.png".to_string()
        ]
    );
}

#[test]
fn markdown_duplicates_are_kept() {
    let text = "![a](https://x.org/1.png) ![b](https://x.org/1.png)";
    let urls = extract_image_urls(text).unwrap();
    assert_eq!(urls.len(), 2);
}

#[test]
fn bare_links_stop_at_brackets_and_space() {
    let text = "[see](https://uploads.linear.app/q/r.png) and https://uploads.linear.app/s]t";
    let urls = extract_image_urls(text).unwrap();
    assert_eq!(
        urls,
        vec![
            "https://uploads.linear.app/q/r.png".to_string(),
            "https://uploads.linear.app/s".to_string()
        ]
    );
}

#[test]
fn merge_adds_each_new_bare_url_once() {
    let found = vec!["a".to_string(), "b".to_string(), "a".to_string()];
    let bare = vec!["b".to_string(), "c".to_string(), "c".to_string(), "d".to_string()];
    let merged = merge_bare_urls_exec(found, bare);
    assert_eq!(merged, vec!["a", "b", "a", "c", "d"]);
}

#[test]
fn issue_images_are_labeled_and_unique() {
    let issue = IssueText {
        description: Some("![d](https://uploads.linear.app/1.png)".to_string()),
        comment_bodies: vec![
            None,
            Some("again https://uploads.linear.app/1.png and ![n](https://e.com/2.gif)".to_string()),
        ],
        attachment_urls: vec![
            Some("https://e.com/doc.txt".to_string()),
            None,
            Some("https://e.com/pic.webp".to_string()),
            Some("https://e.com/2.gif".to_string()),
        ],
    };
    let images = collect_issue_images(&issue).unwrap();
    assert_eq!(
        images,
        vec![
            ("https://uploads.linear.app/1.png".to_string(), "description".to_string()),
            ("https://e.com/2.gif".to_string(), "comment-1".to_string()),
            ("https://e.com/pic.webp".to_string(), "attachment-2".to_string()),
        ]
    );
}

#[test]
fn issue_without_text_has_no_images() {
    let issue = IssueText {
        description: None,
        comment_bodies: vec![],
        attachment_urls: vec![],
    };
    assert_eq!(collect_issue_images(&issue).unwrap(), vec![]);
}

#[test]
fn comment_labels_count_in_decimal() {
    let mut bodies = vec![None; 12];
    bodies.push(Some("![x](https://e.com/z.png)".to_string()));
    let issue = IssueText {
        description: None,
        comment_bodies: bodies,
        attachment_urls: vec![],
    };
    let images = collect_issue_images(&issue).unwrap();
    assert_eq!(images[0].1, "comment-12");
}

#[test]
fn image_file_names() {
    assert_eq!(image_filename(0, "https://e.com/a.jpeg?x=1"), "image-0.jpg");
    assert_eq!(image_filename(10, "https://e.com/a"), "image-10.png");
    assert_eq!(image_filename(305, "https://e.com/a.svg"), "image-305.svg");
}

#[test]
fn default_directory_names_the_issue() {
    assert_eq!(default_output_dir("ENG-123"), "/tmp/linear-images/ENG-123");
}

#[test]
fn download_retries_once_without_auth() {
    assert!(matches!(download_step(true, 200, "200 OK"), DownloadStep::SaveBody));
    assert!(matches!(download_step(true, 403, "403 Forbidden"), DownloadStep::RetryWithoutAuth));
    assert!(matches!(download_step(false, 204, "204 No Content"), DownloadStep::SaveBody));
    match download_step(false, 404, "404 Not Found") {
        DownloadStep::Fail(m) => assert_eq!(m, "HTTP 404 Not Found"),
        other => panic!("unexpected {:?}", other),
    }
}

#[test]
fn captured_urls_need_every_group() {
    assert_eq!(
        captured_urls(vec![Some("a".to_string()), Some("b".to_string())]),
        Some(vec!["a".to_string(), "b".to_string()])
    );
    assert_eq!(captured_urls(vec![Some("a".to_string()), None]), None);
    assert_eq!(captured_urls(vec![]), Some(vec![]));
}
