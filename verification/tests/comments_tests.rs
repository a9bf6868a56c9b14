use blog_core::comments::{
    listing_reply, submission_reply, CommentData, COMMENT_USER_ID, HTTP_OK, HTTP_SERVER_ERROR,
};

fn comment(username: &str, content: &str) -> CommentData {
    CommentData::new(7, username.to_string(), content.to_string())
}

#[test]
fn markup_in_a_comment_is_escaped() {
    let stored = comment("<b>Ada</b>", "a > b && a < c").sanitized();
    assert_eq!(stored.author_name, "&lt;b&gt;Ada&lt;/b&gt;");
    assert_eq!(stored.content, "a &gt; b &amp;&amp; a &lt; c");
}

#[test]
fn script_tag_cannot_survive() {
    let stored = comment("x", "<script>alert('x')</script>").sanitized();
    assert_eq!(stored.content, "&lt;script&gt;alert('x')&lt;/script&gt;");
    assert!(!stored.content.contains('<'));
    assert!(!stored.content.contains('>'));
}

#[test]
fn plain_text_is_stored_as_it_is() {
    let stored = comment("Skyfetch", "Rust Dili Harika Bir Dile Benziyor 😊").sanitized();
    assert_eq!(stored.author_name, "Skyfetch");
    assert_eq!(stored.content, "Rust Dili Harika Bir Dile Benziyor 😊");
}

#[test]
fn quotes_are_left_alone() {
    let stored = comment("\"q\"", "it's 'fine'").sanitized();
    assert_eq!(stored.author_name, "\"q\"");
    assert_eq!(stored.content, "it's 'fine'");
}

#[test]
fn entity_is_escaped_again() {
    let stored = comment("a", "&amp; &lt;").sanitized();
    assert_eq!(stored.content, "&amp;amp; &amp;lt;");
}

#[test]
fn empty_comment_stays_empty() {
    let stored = comment("", "").sanitized();
    assert_eq!(stored.author_name, "");
    assert_eq!(stored.content, "");
}

#[test]
fn comment_is_attributed_to_the_first_account() {
    let stored = comment("a", "b").sanitized();
    assert_eq!(stored.post_id, 7);
    assert_eq!(stored.user_id, 1);
    assert_eq!(COMMENT_USER_ID, 1);
}

#[test]
fn submitted_comment_keeps_its_fields() {
    let data = comment("<a>", "<b>");
    assert_eq!(data.post_id, 7);
    assert_eq!(data.username, "<a>");
    assert_eq!(data.content, "<b>");
}

#[test]
fn failed_listing_is_a_bare_server_error() {
    let reply = listing_reply(None);
    assert_eq!(reply.http_status, 500);
    assert!(reply.envelope.is_none());
}

#[test]
fn empty_listing_reports_that_there_are_no_comments() {
    let reply = listing_reply(Some(0));
    assert_eq!(reply.http_status, HTTP_OK);
    let envelope = reply.envelope.unwrap();
    assert!(!envelope.status);
    assert_eq!(envelope.code, 2);
    assert_eq!(envelope.message, "No comments found");
}

#[test]
fn listing_with_comments_succeeds() {
    for count in [1usize, 2, 100, usize::MAX] {
        let reply = listing_reply(Some(count));
        assert_eq!(reply.http_status, 200);
        let envelope = reply.envelope.unwrap();
        assert!(envelope.status);
        assert_eq!(envelope.code, 1);
        assert_eq!(envelope.message, "Comments found successfully");
    }
}

#[test]
fn stored_submission_succeeds() {
    let reply = submission_reply(true);
    assert_eq!(reply.http_status, 200);
    let envelope = reply.envelope.unwrap();
    assert!(envelope.status);
    assert_eq!(envelope.code, 1);
    assert_eq!(envelope.message, "Comment added successfully");
}

#[test]
fn refused_submission_is_a_server_error_with_a_body() {
    let reply = submission_reply(false);
    assert_eq!(reply.http_status, HTTP_SERVER_ERROR);
    let envelope = reply.envelope.unwrap();
    assert!(!envelope.status);
    assert_eq!(envelope.code, 0);
    assert_eq!(envelope.message, "Internal server error");
}
