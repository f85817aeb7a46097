use orbitmail::body::ext_from_mime;
use orbitmail::body::extract_displayable_body;
use orbitmail::body::render_or_fallback;
use orbitmail::body::wrap_pre_exec;
use orbitmail::body::MimePart;
use orbitmail::text::escape_html_exec;
use orbitmail::text::replace_all_exec;
use orbitmail::text::sanitize_exec;
use orbitmail::text::trimmed_len_exec;

const PRE_OPEN: &str = "<pre style=\"white-space:pre-wrap;font-family:system-ui\">";

fn leaf(mimetype: &str, text: &str) -> MimePart {
    MimePart {
        mimetype: mimetype.to_string(),
        disposition: None,
        content_id: None,
        text: text.to_string(),
        raw: Vec::new(),
        subparts: Vec::new(),
    }
}

fn image(content_id: &str, mimetype: &str, raw: Vec<u8>) -> MimePart {
    MimePart {
        mimetype: mimetype.to_string(),
        disposition: None,
        content_id: Some(content_id.to_string()),
        text: String::new(),
        raw,
        subparts: Vec::new(),
    }
}

fn multipart(children: Vec<MimePart>) -> MimePart {
    MimePart {
        mimetype: "multipart/related".to_string(),
        disposition: None,
        content_id: None,
        text: String::new(),
        raw: Vec::new(),
        subparts: children,
    }
}

#[test]
fn ext_from_mime_all_known_types() {
    assert_eq!(ext_from_mime("image/png"), "png");
    assert_eq!(ext_from_mime("image/jpeg"), "jpg");
    assert_eq!(ext_from_mime("image/jpg"), "jpg");
    assert_eq!(ext_from_mime("image/gif"), "gif");
    assert_eq!(ext_from_mime("image/webp"), "webp");
    assert_eq!(ext_from_mime("image/svg+xml"), "svg");
    assert_eq!(ext_from_mime("image/bmp"), "bmp");
    assert_eq!(ext_from_mime("image/tiff"), "bin");
    assert_eq!(ext_from_mime("application/pdf"), "bin");
}

#[test]
fn escape_covers_amp_lt_gt() {
    let out = escape_html_exec("a<b&c>d");
    assert_eq!(out, "a&lt;b&amp;c&gt;d");
    assert_eq!(escape_html_exec(""), "");
}

#[test]
fn trimmed_len_ignores_surrounding_whitespace() {
    assert_eq!(trimmed_len_exec("  hello \n"), 5);
    assert_eq!(trimmed_len_exec(" \t\r\n "), 0);
    assert_eq!(trimmed_len_exec("x"), 1);
}

#[test]
fn sanitize_replaces_non_alphanumerics() {
    assert_eq!(sanitize_exec("abc123"), "abc123");
    assert_eq!(sanitize_exec("a.b-c@d"), "a_b_c_d");
}

#[test]
fn replace_all_replaces_every_occurrence() {
    assert_eq!(replace_all_exec("xaxaxa", "a", "bb"), "xbbxbbxbb");
    assert_eq!(replace_all_exec("no hits", "zz", "y"), "no hits");
}

#[test]
fn html_only_message_is_returned_unmodified() {
    // a 25-character text/html part is the whole content
    let html = "<p>Hello there, world</p>";
    assert_eq!(html.len(), 25);
    let root = leaf("text/html", html);
    let (out, plans) = extract_displayable_body(1, &root, "asset://localhost/cache/");
    assert_eq!(out, html);
    assert!(plans.is_empty());
}

#[test]
fn short_html_part_is_not_a_candidate() {
    // under 20 trimmed characters the html part is passed over and the
    // message falls back to its escaped text
    let root = leaf("text/html", "<p>tiny</p>");
    let (out, _) = extract_displayable_body(1, &root, "p/");
    assert!(out.starts_with(PRE_OPEN));
    assert!(out.ends_with("</pre>"));
}

#[test]
fn plain_text_message_is_escaped_and_wrapped() {
    let root = leaf("text/plain", "Hello");
    let (out, plans) = extract_displayable_body(1, &root, "p/");
    assert_eq!(out, format!("{}Hello</pre>", PRE_OPEN));
    assert!(plans.is_empty());

    let spicy = leaf("text/plain", "1 < 2 & 3 > 2");
    let (out2, _) = extract_displayable_body(1, &spicy, "p/");
    assert_eq!(out2, format!("{}1 &lt; 2 &amp; 3 &gt; 2</pre>", PRE_OPEN));
}

#[test]
fn later_html_part_wins_over_earlier() {
    let first = leaf("text/html", "<p>first candidate body</p>");
    let second = leaf("text/html", "<p>second candidate body</p>");
    let root = multipart(vec![first, second]);
    let (out, _) = extract_displayable_body(1, &root, "p/");
    assert_eq!(out, "<p>second candidate body</p>");
}

#[test]
fn referenced_inline_image_is_rewritten_and_planned() {
    let html = "<p>Pic:</p><img src=\"cid:abc123\">";
    let root = multipart(vec![
        leaf("text/html", html),
        image("<abc123>", "image/png", vec![1, 2, 3]),
    ]);
    let (out, plans) = extract_displayable_body(7, &root, "asset://localhost/cache/");
    assert_eq!(
        out,
        "<p>Pic:</p><img src=\"asset://localhost/cache/uid_7_cid_abc123.png\">"
    );
    assert_eq!(plans.len(), 1, "a cache file is created for the referenced image");
    assert_eq!(plans[0].file_name, "uid_7_cid_abc123.png");
    assert_eq!(plans[0].bytes, vec![1, 2, 3]);
}

#[test]
fn unreferenced_candidate_is_not_materialized() {
    let html = "<p>No image used here at all</p>";
    let root = multipart(vec![
        leaf("text/html", html),
        image("<abc123>", "image/png", vec![1, 2, 3]),
    ]);
    let (out, plans) = extract_displayable_body(7, &root, "p/");
    assert_eq!(out, html);
    assert!(plans.is_empty());
}

#[test]
fn reference_without_matching_part_is_left_untouched() {
    let html = "<p>Ghost:</p><img src=\"cid:ghost\">";
    let root = multipart(vec![
        leaf("text/html", html),
        image("<abc123>", "image/png", vec![1, 2, 3]),
    ]);
    let (out, plans) = extract_displayable_body(7, &root, "p/");
    assert_eq!(out, html, "a cid reference with no matching part stays as it is");
    assert!(plans.is_empty());
}

#[test]
fn attachment_image_is_not_an_inline_candidate() {
    let html = "<p>Pic:</p><img src=\"cid:abc123\">";
    let mut img = image("<abc123>", "image/png", vec![1, 2, 3]);
    img.disposition = Some("attachment; filename=x.png".to_string());
    let root = multipart(vec![leaf("text/html", html), img]);
    let (out, plans) = extract_displayable_body(7, &root, "p/");
    assert_eq!(out, html);
    assert!(plans.is_empty());
}

#[test]
fn oversized_inline_image_is_skipped() {
    let html = "<p>Big:</p><img src=\"cid:big\">";
    let big = vec![0u8; 5 * 1024 * 1024 + 1];
    let root = multipart(vec![leaf("text/html", html), image("<big>", "image/png", big)]);
    let (out, plans) = extract_displayable_body(7, &root, "p/");
    assert_eq!(out, html, "an oversized part is not cached and its reference stays unresolved");
    assert!(plans.is_empty());
}

#[test]
fn cid_reference_matching_is_case_insensitive_and_quote_optional() {
    let html = "<p>padding padding</p><img SRC = cid:abc123 >";
    let root = multipart(vec![
        leaf("text/html", html),
        image("abc123", "image/png", vec![9]),
    ]);
    let (_, plans) = extract_displayable_body(3, &root, "p/");
    assert_eq!(plans.len(), 1);
    assert_eq!(plans[0].file_name, "uid_3_cid_abc123.png");
}

#[test]
fn fallback_rendering_escapes_raw_text() {
    let (out, plans) = render_or_fallback(1, None, "raw <bytes>", "p/");
    assert_eq!(out, format!("{}raw &lt;bytes&gt;</pre>", PRE_OPEN));
    assert!(plans.is_empty());
    assert_eq!(wrap_pre_exec("x"), format!("{}x</pre>", PRE_OPEN));
}
