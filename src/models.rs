//! The stored records: projects, chats and messages, and the library's error.
use vstd::prelude::*;
use vstd::string::*;

verus! {

/// A project: a named group of chats with its settings stored as JSON text.
pub struct Project {
    pub id: String,
    pub name: String,
    pub settings_json: String,
    pub created_at: String,
    pub updated_at: String,
}

/// A chat: a conversation, inside a project or on its own.
pub struct Chat {
    pub id: String,
    pub project_id: Option<String>,
    pub title: String,
    pub created_at: String,
    pub updated_at: String,
}

/// One message of a conversation. `images` and `documents`, when present,
/// hold JSON arrays of attachment entries with `data` and `media_type` fields.
pub struct Message {
    pub id: String,
    pub chat_id: String,
    pub role: String,
    pub content: String,
    pub images: Option<String>,
    pub documents: Option<String>,
    pub model: Option<String>,
    pub extended_thinking: Option<i32>,
    pub created_at: String,
}

/// An attachment as handed to the provider: base64 data and its media type.
pub struct MessageImage {
    pub data: String,
    pub media_type: String,
}

impl View for MessageImage {
    type V = (Seq<char>, Seq<char>);

    /// The media type, then the data.
    open spec fn view(&self) -> (Seq<char>, Seq<char>) {
        (self.media_type@, self.data@)
    }
}

/// A failure of a call, carried as a human-readable message.
pub struct AppError {
    pub message: String,
}

/// The text that stands for an error body that could not be read.
pub open spec fn unknown_error_text() -> Seq<char> {
    "Unknown error"@
}

impl AppError {
    /// The error for a response whose status is not success: `API error: `
    /// followed by the body, or by a placeholder when the body could not be read.
    pub fn api(body: Option<String>) -> (r: AppError)
        ensures
            r.message@ == "API error: "@ + match body {
                Some(b) => b@,
                None => unknown_error_text(),
            },
    {
        let mut message = String::from_str("API error: ");
        match body {
            Some(b) => message.append(b.as_str()),
            None => message.append("Unknown error"),
        }
        AppError { message }
    }
}

/// The output token limit used when the settings give none.
pub fn default_max_tokens() -> (r: u32)
    ensures
        r == 4096,
{
    4096
}

/// A lower-case hexadecimal digit.
pub open spec fn is_lower_hex(c: char) -> bool {
    ('0' <= c && c <= '9') || ('a' <= c && c <= 'f')
}

/// The text of a random (version 4) UUID in lower-case hyphenated form:
/// hex digits in groups of 8, 4, 4, 4 and 12, the version digit 4, and a
/// variant digit among 8, 9, a and b.
pub open spec fn is_uuid_v4_text(s: Seq<char>) -> bool {
    &&& s.len() == 36
    &&& s[8] == '-' && s[13] == '-' && s[18] == '-' && s[23] == '-'
    &&& s[14] == '4'
    &&& (s[19] == '8' || s[19] == '9' || s[19] == 'a' || s[19] == 'b')
    &&& forall|i: int| 0 <= i < 36 && i != 8 && i != 13 && i != 18 && i != 23 ==> is_lower_hex(#[trigger] s[i])
}

/// A decimal digit.
pub open spec fn is_digit(c: char) -> bool {
    '0' <= c && c <= '9'
}

/// The first second of the year 10000, counted from the Unix epoch: times
/// before it have a four-digit year.
pub const MAX_TIMESTAMP_SECS: i64 = 253402300800;

/// A time from the Unix epoch to the end of the year 9999, with its fraction
/// of a second in nanoseconds.
pub open spec fn timestamp_in_range(secs: i64, nanos: u32) -> bool {
    0 <= secs < MAX_TIMESTAMP_SECS && nanos < 1000000000
}

/// A UTC time in RFC 3339 form with a numeric offset:
/// `YYYY-MM-DDTHH:MM:SS`, then a fraction of 3, 6 or 9 digits if the time
/// has one, then `+00:00`.
pub open spec fn is_utc_rfc3339_text(s: Seq<char>) -> bool {
    &&& (s.len() == 25 || s.len() == 29 || s.len() == 32 || s.len() == 35)
    &&& forall|i: int| (0 <= i < 4 || 5 <= i < 7 || 8 <= i < 10 || 11 <= i < 13 || 14 <= i < 16 || 17 <= i < 19)
        ==> is_digit(#[trigger] s[i])
    &&& s[4] == '-' && s[7] == '-' && s[10] == 'T' && s[13] == ':' && s[16] == ':'
    &&& s.len() > 25 ==> s[19] == '.' && forall|i: int| 20 <= i < s.len() - 6 ==> is_digit(#[trigger] s[i])
    &&& s.subrange(s.len() - 6, s.len() as int) == "+00:00"@
}

/// Relies on uuid::Builder::from_random_bytes, which sets the version nibble
/// to 4 and the top two variant bits to 10, and on the Display impl of
/// Uuid, which writes the lower-case hyphenated form.
#[verifier::external_body]
fn uuid_v4_text(random: [u8; 16]) -> (r: String)
    ensures
        is_uuid_v4_text(r@),
{
    uuid::Builder::from_random_bytes(random).into_uuid().to_string()
}

/// Relies on chrono::DateTime::from_timestamp, which gives a time for every
/// second of the years 1970 to 9999 with a fraction below one second, and on
/// DateTime::to_rfc3339, which writes the date, `T`, the time to the second,
/// a fraction of 3, 6 or 9 digits when it is not zero, and `+00:00`.
#[verifier::external_body]
fn rfc3339_utc(secs: i64, nanos: u32) -> (r: String)
    requires
        timestamp_in_range(secs, nanos),
    ensures
        is_utc_rfc3339_text(r@),
{
    chrono::DateTime::from_timestamp(secs, nanos).map(|t| t.to_rfc3339()).unwrap_or_default()
}

impl Message {
    /// A message with the identifier made from 16 random bytes and the
    /// creation time given in seconds and nanoseconds since the Unix epoch,
    /// and no attachments or metadata. `None` when the time is outside the
    /// years 1970 to 9999.
    pub fn with_role(
        role: String,
        chat_id: String,
        content: String,
        random: [u8; 16],
        secs: i64,
        nanos: u32,
    ) -> (r: Option<Message>)
        ensures
            r.is_some() == timestamp_in_range(secs, nanos),
            r matches Some(m) ==> {
                &&& m.role@ == role@
                &&& m.chat_id@ == chat_id@
                &&& m.content@ == content@
                &&& is_uuid_v4_text(m.id@)
                &&& is_utc_rfc3339_text(m.created_at@)
                &&& m.images.is_none()
                &&& m.documents.is_none()
                &&& m.model.is_none()
                &&& m.extended_thinking.is_none()
            },
    {
        if secs < 0 || secs >= MAX_TIMESTAMP_SECS || nanos >= 1000000000 {
            return None;
        }
        Some(Message {
            id: uuid_v4_text(random),
            chat_id,
            role,
            content,
            images: None,
            documents: None,
            model: None,
            extended_thinking: None,
            created_at: rfc3339_utc(secs, nanos),
        })
    }

    /// A new message from the user; see `with_role`.
    pub fn new_user(chat_id: String, content: String, random: [u8; 16], secs: i64, nanos: u32) -> (r: Option<Message>)
        ensures
            r.is_some() == timestamp_in_range(secs, nanos),
            r matches Some(m) ==> {
                &&& m.role@ == "user"@
                &&& m.chat_id@ == chat_id@
                &&& m.content@ == content@
                &&& is_uuid_v4_text(m.id@)
                &&& is_utc_rfc3339_text(m.created_at@)
                &&& m.images.is_none()
                &&& m.documents.is_none()
                &&& m.model.is_none()
                &&& m.extended_thinking.is_none()
            },
    {
        Message::with_role(String::from_str("user"), chat_id, content, random, secs, nanos)
    }

    /// A new message from the assistant; see `with_role`.
    pub fn new_assistant(chat_id: String, content: String, random: [u8; 16], secs: i64, nanos: u32) -> (r: Option<Message>)
        ensures
            r.is_some() == timestamp_in_range(secs, nanos),
            r matches Some(m) ==> {
                &&& m.role@ == "assistant"@
                &&& m.chat_id@ == chat_id@
                &&& m.content@ == content@
                &&& is_uuid_v4_text(m.id@)
                &&& is_utc_rfc3339_text(m.created_at@)
                &&& m.images.is_none()
                &&& m.documents.is_none()
                &&& m.model.is_none()
                &&& m.extended_thinking.is_none()
            },
    {
        Message::with_role(String::from_str("assistant"), chat_id, content, random, secs, nanos)
    }
}

} // verus!
