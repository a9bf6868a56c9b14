//! Comments as visitors submit them, and as they are stored.

use vstd::prelude::*;

verus! {

/// The account that submitted comments are attributed to.
pub const COMMENT_USER_ID: i32 = 1;

/// A comment as a visitor submits it.
#[derive(Debug)]
pub struct CommentData {
    pub post_id: i32,
    pub username: String,
    pub content: String,
}

/// A comment as it is written to the store: free of markup.
#[derive(Debug)]
pub struct StoredComment {
    pub post_id: i32,
    pub user_id: i32,
    pub author_name: String,
    pub content: String,
}

/// What stands for one character in HTML text: `&`, `<` and `>` are written
/// as entities, every other character as itself.
pub open spec fn escaped_char(c: char) -> Seq<char> {
    if c == '&' {
        seq!['&', 'a', 'm', 'p', ';']
    } else if c == '<' {
        seq!['&', 'l', 't', ';']
    } else if c == '>' {
        seq!['&', 'g', 't', ';']
    } else {
        seq![c]
    }
}

/// A text with each of its characters escaped.
pub open spec fn escaped(text: Seq<char>) -> Seq<char>
    decreases text.len(),
{
    if text.len() == 0 {
        Seq::empty()
    } else {
        escaped(text.drop_last()) + escaped_char(text.last())
    }
}

/// Escaped text holds no `<` and no `>`: none of it can open or close a tag.
pub proof fn lemma_escaped_is_free_of_tags(text: Seq<char>)
    ensures
        forall|i: int|
            0 <= i < escaped(text).len() ==> #[trigger] escaped(text)[i] != '<' && escaped(
                text,
            )[i] != '>',
    decreases text.len(),
{
    if text.len() > 0 {
        let front = escaped(text.drop_last());
        let tail = escaped_char(text.last());
        lemma_escaped_is_free_of_tags(text.drop_last());
        assert forall|i: int| 0 <= i < escaped(text).len() implies #[trigger] escaped(text)[i]
            != '<' && escaped(text)[i] != '>' by {
            if i < front.len() {
                assert(escaped(text)[i] == front[i]);
            } else {
                assert(escaped(text)[i] == tail[i - front.len()]);
            }
        }
    }
}

/// Text without `&`, `<` and `>` is left as it is.
pub proof fn lemma_plain_text_is_unchanged(text: Seq<char>)
    requires
        forall|i: int|
            0 <= i < text.len() ==> text[i] != '&' && text[i] != '<' && text[i] != '>',
    ensures
        escaped(text) == text,
    decreases text.len(),
{
    if text.len() > 0 {
        lemma_plain_text_is_unchanged(text.drop_last());
        assert(text.drop_last().push(text.last()) =~= text);
        assert(escaped(text) =~= text);
    }
}

impl CommentData {
    pub fn new(post_id: i32, username: String, content: String) -> (comment: CommentData)
        ensures
            comment.post_id == post_id,
            comment.username == username,
            comment.content == content,
    {
        CommentData { post_id, username, content }
    }

    /// The comment as it is stored: name and content escaped for HTML text,
    /// under the account that comments are attributed to.
    pub fn sanitized(&self) -> (stored: StoredComment)
        ensures
            stored.post_id == self.post_id,
            stored.user_id == COMMENT_USER_ID,
            stored.author_name@ == escaped(self.username@),
            stored.content@ == escaped(self.content@),
    {
        StoredComment {
            post_id: self.post_id,
            user_id: COMMENT_USER_ID,
            author_name: encode_text(self.username.as_str()),
            content: encode_text(self.content.as_str()),
        }
    }
}

/// The frame of an answer of the comments interface: whether the request
/// succeeded, a code for the outcome, and a message for the reader.
#[derive(Debug)]
pub struct Envelope {
    pub status: bool,
    pub code: i32,
    pub message: String,
}

/// An answer of the comments interface: the HTTP status, and the frame of
/// the body where the answer has a body.
#[derive(Debug)]
pub struct ApiReply {
    pub http_status: u16,
    pub envelope: Option<Envelope>,
}

pub const HTTP_OK: u16 = 200;

pub const HTTP_SERVER_ERROR: u16 = 500;

impl ApiReply {
    /// Whether the answer has the given status and a body framed by the given
    /// three values.
    pub open spec fn frames(
        self,
        http_status: u16,
        status: bool,
        code: i32,
        message: Seq<char>,
    ) -> bool {
        &&& self.http_status == http_status
        &&& self.envelope matches Some(envelope)
        &&& envelope.status == status
        &&& envelope.code == code
        &&& envelope.message@ == message
    }
}

fn framed(http_status: u16, status: bool, code: i32, message: &str) -> (reply: ApiReply)
    ensures
        reply.frames(http_status, status, code, message@),
{
    ApiReply { http_status, envelope: Some(Envelope { status, code, message: message.to_owned() }) }
}

/// The answer to a request for the comments of a post. `found` is the number
/// of comments that the repository returned, or `None` where it failed. A
/// failure is answered with a bare server error; an empty list is a
/// successful answer that reports that there are no comments.
pub fn listing_reply(found: Option<usize>) -> (reply: ApiReply)
    ensures
        match found {
            None => reply.http_status == HTTP_SERVER_ERROR && reply.envelope is None,
            Some(count) => if count == 0 {
                reply.frames(HTTP_OK, false, 2, "No comments found"@)
            } else {
                reply.frames(HTTP_OK, true, 1, "Comments found successfully"@)
            },
        },
{
    match found {
        None => ApiReply { http_status: HTTP_SERVER_ERROR, envelope: None },
        Some(count) => if count == 0 {
            framed(HTTP_OK, false, 2, "No comments found")
        } else {
            framed(HTTP_OK, true, 1, "Comments found successfully")
        },
    }
}

/// The answer to a submitted comment: `stored` says whether the repository
/// took it.
pub fn submission_reply(stored: bool) -> (reply: ApiReply)
    ensures
        if stored {
            reply.frames(HTTP_OK, true, 1, "Comment added successfully"@)
        } else {
            reply.frames(HTTP_SERVER_ERROR, false, 0, "Internal server error"@)
        },
{
    if stored {
        framed(HTTP_OK, true, 1, "Comment added successfully")
    } else {
        framed(HTTP_SERVER_ERROR, false, 0, "Internal server error")
    }
}

/// html_escape's `encode_text`: the text with every `&` written as `&amp;`,
/// every `<` as `&lt;` and every `>` as `&gt;`, and all else unchanged.
#[verifier::external_body]
fn encode_text(text: &str) -> (encoded: String)
    ensures
        encoded@ == escaped(text@),
{
    html_escape::encode_text(text).into_owned()
}

} // verus!
