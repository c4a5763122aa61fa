//! Memes: which messages of a meme channel count as memes, and what is kept of
//! them.
use vstd::prelude::*;
use crate::text::{has_prefix, starts_with, text_eq};

verus! {

/// Where the media of a meme lives.
#[derive(Debug, Clone, Copy, PartialEq, Eq, Structural)]
pub enum MemeType {
    DiscordAttachment,
    FileURL,
    SupportedEmbed,
}

/// A meme found in a channel: the message that posted it and its media link.
#[derive(Debug)]
pub struct GreedMeme {
    pub message_id: u64,
    pub url: String,
    pub meme_type: MemeType,
}

impl Clone for GreedMeme {
    fn clone(&self) -> (r: Self)
        ensures
            r == *self,
    {
        GreedMeme { message_id: self.message_id, url: self.url.clone(), meme_type: self.meme_type }
    }
}

/// A file attached to a message, as Discord describes it.
#[derive(Debug)]
pub struct Attachment {
    pub url: String,
    pub filename: String,
    pub content_type: Option<String>,
}

/// What the indexer reads of a Discord message.
#[derive(Debug)]
pub struct Message {
    pub id: u64,
    /// The author is a bot.
    pub author_bot: bool,
    /// The message is an ordinary user message (not a join notice, a pin, ...).
    pub regular: bool,
    pub attachments: Vec<Attachment>,
}

/// What `std::path::Path::extension` gives for the path `path`, as text.
pub uninterp spec fn path_extension(path: Seq<char>) -> Option<Seq<char>>;

/// What `str::to_lowercase` gives for `s`.
pub uninterp spec fn lowercase(s: Seq<char>) -> Seq<char>;

/// A file name that is one path component on every platform: it holds no
/// `/`, `\\` or `:`.
pub open spec fn plain_file_name(name: Seq<char>) -> bool {
    !name.contains('/') && !name.contains('\\') && !name.contains(':')
}

/// The position of the last `.` in `s`, or -1 when there is none.
pub open spec fn last_dot(s: Seq<char>) -> int
    decreases s.len(),
{
    if s.len() == 0 {
        -1
    } else if s.last() == '.' {
        s.len() - 1
    } else {
        last_dot(s.drop_last())
    }
}

/// The extension of a plain file name, as `Path::extension` documents it:
/// none for `..` (which has no file name), none without a `.`, none when the
/// name begins with its only `.`, else the text after the last `.`.
pub open spec fn name_extension(name: Seq<char>) -> Option<Seq<char>> {
    if name == ".."@ || last_dot(name) <= 0 {
        None
    } else {
        Some(name.subrange(last_dot(name) + 1, name.len() as int))
    }
}

/// `std::path::Path::extension` of the path `filename`, converted to text.
/// The contract claims that the result is a function of the path alone (the
/// extension of a path given as UTF-8 text is itself UTF-8 text) and, for a
/// plain file name, what the documentation of `Path::extension` says of a
/// file name: see [`name_extension`]. How other paths are split into
/// components is not stated.
#[verifier::external_body]
fn file_extension(filename: &str) -> (r: Option<String>)
    ensures
        match r {
            Some(e) => path_extension(filename@) == Some(e@),
            None => path_extension(filename@) is None,
        },
        plain_file_name(filename@) ==> match r {
            Some(e) => name_extension(filename@) == Some(e@),
            None => name_extension(filename@) is None,
        },
{
    std::path::Path::new(filename).extension().and_then(|e| e.to_str()).map(|e| e.to_string())
}

/// Text made of ASCII characters only.
pub open spec fn ascii_text(s: Seq<char>) -> bool {
    forall|i: int| 0 <= i < s.len() ==> (#[trigger] s[i] as u32) < 128
}

/// An ASCII upper-case letter in lower case; any other character as it is.
pub open spec fn ascii_lower_char(c: char) -> char {
    if 65 <= (c as u32) <= 90 {
        ((c as u32) + 32) as char
    } else {
        c
    }
}

/// An ASCII lower-case letter in upper case; any other character as it is.
pub open spec fn ascii_upper_char(c: char) -> char {
    if 97 <= (c as u32) <= 122 {
        ((c as u32) - 32) as char
    } else {
        c
    }
}

/// `s` with its ASCII letters in lower case (`str::to_ascii_lowercase`).
pub open spec fn ascii_lower(s: Seq<char>) -> Seq<char> {
    s.map_values(|c: char| ascii_lower_char(c))
}

/// `s` with its ASCII letters in upper case (`str::to_ascii_uppercase`).
pub open spec fn ascii_upper(s: Seq<char>) -> Seq<char> {
    s.map_values(|c: char| ascii_upper_char(c))
}

/// `str::to_lowercase`. The contract claims that the result is a function of
/// the text and, for ASCII text, what the Unicode lowercase mapping gives
/// there: `A` to `Z` become `a` to `z`, every other character stays. The
/// mapping of other characters is not stated.
#[verifier::external_body]
fn to_lowercase(s: &str) -> (r: String)
    ensures
        r@ == lowercase(s@),
        ascii_text(s@) ==> r@ == ascii_lower(s@),
{
    s.to_lowercase()
}

/// The (lowercase) file extensions of images and videos.
pub open spec fn is_media_extension(ext: Seq<char>) -> bool {
    ||| ext == "png"@
    ||| ext == "jpg"@
    ||| ext == "jpeg"@
    ||| ext == "gif"@
    ||| ext == "tiff"@
    ||| ext == "heic"@
    ||| ext == "heif"@
    ||| ext == "bmp"@
    ||| ext == "raw"@
    ||| ext == "webp"@
    ||| ext == "svg"@
    ||| ext == "mkv"@
    ||| ext == "mp4"@
    ||| ext == "avi"@
    ||| ext == "webm"@
    ||| ext == "mpeg"@
    ||| ext == "mp4v"@
    ||| ext == "mpeg4"@
    ||| ext == "mov"@
    ||| ext == "movie"@
    ||| ext == "gifv"@
    ||| ext == "h264"@
}

/// A file name names an image or a video: it has an extension that, in lower
/// case, is one of the media extensions.
pub open spec fn has_media_extension(filename: Seq<char>) -> bool {
    match path_extension(filename) {
        Some(ext) => is_media_extension(lowercase(ext)),
        None => false,
    }
}

/// The extension of a plain file name is ASCII text, or there is none.
pub open spec fn ascii_extension(name: Seq<char>) -> bool {
    match name_extension(name) {
        Some(ext) => ascii_text(ext),
        None => true,
    }
}

/// A plain file name with an ASCII extension names an image or a video: its
/// extension, with its letters in lower case, is one of the media extensions.
pub open spec fn plain_media_name(name: Seq<char>) -> bool {
    match name_extension(name) {
        Some(ext) => is_media_extension(ascii_lower(ext)),
        None => false,
    }
}

/// Changing the case of an ASCII letter gives a letter again; every other
/// character stays.
proof fn lemma_case_char(c: char)
    ensures
        (ascii_upper_char(c) as u32) < 128 <==> (c as u32) < 128,
        (ascii_lower_char(c) as u32) < 128 <==> (c as u32) < 128,
        (ascii_upper_char(c) as u32) == (c as u32) || 97 <= (c as u32) <= 122,
        (ascii_lower_char(c) as u32) == (c as u32) || 65 <= (c as u32) <= 90,
        65 <= (ascii_upper_char(c) as u32) <= 90 || (ascii_upper_char(c) as u32) == (c as u32),
        ascii_lower_char(ascii_upper_char(c)) == ascii_lower_char(c),
        ascii_lower_char(ascii_lower_char(c)) == ascii_lower_char(c),
{
    let u = c as u32;
    if 97 <= u <= 122 {
        assert(((u - 32) as u32 as char) as u32 == u - 32);
        assert(((u as char) as u32) == u);
    }
    if 65 <= u <= 90 {
        assert((((u + 32) as u32) as char) as u32 == u + 32);
    }
}

/// Changing the case of an ASCII letter turns no other character into `c`,
/// when `c` is not a letter.
proof fn lemma_case_char_not_letter(c: char, d: char)
    requires
        !(65 <= (d as u32) <= 90),
        !(97 <= (d as u32) <= 122),
    ensures
        ascii_upper_char(c) == d <==> c == d,
        ascii_lower_char(c) == d <==> c == d,
{
    lemma_case_char(c);
}

/// Changing the case of the ASCII letters keeps the dots of a text where they
/// were.
proof fn lemma_case_keeps_dots(s: Seq<char>)
    ensures
        last_dot(ascii_upper(s)) == last_dot(s),
        last_dot(ascii_lower(s)) == last_dot(s),
    decreases s.len(),
{
    if s.len() > 0 {
        lemma_case_keeps_dots(s.drop_last());
        assert(ascii_upper(s).drop_last() =~= ascii_upper(s.drop_last()));
        assert(ascii_lower(s).drop_last() =~= ascii_lower(s.drop_last()));
    }
}

/// The last dot of a text lies inside it.
proof fn lemma_last_dot_bounds(s: Seq<char>)
    ensures
        -1 <= last_dot(s) < s.len(),
    decreases s.len(),
{
    if s.len() > 0 {
        lemma_last_dot_bounds(s.drop_last());
    }
}

/// A text holds a character that is not a letter after a change of the case
/// of its ASCII letters exactly when it held it before.
proof fn lemma_case_keeps_other(s: Seq<char>, d: char)
    requires
        !(65 <= (d as u32) <= 90),
        !(97 <= (d as u32) <= 122),
    ensures
        ascii_upper(s).contains(d) == s.contains(d),
        ascii_lower(s).contains(d) == s.contains(d),
{
    if ascii_upper(s).contains(d) {
        let i = choose|i: int| 0 <= i < ascii_upper(s).len() && ascii_upper(s)[i] == d;
        lemma_case_char_not_letter(s[i], d);
    }
    if ascii_lower(s).contains(d) {
        let i = choose|i: int| 0 <= i < ascii_lower(s).len() && ascii_lower(s)[i] == d;
        lemma_case_char_not_letter(s[i], d);
    }
    if s.contains(d) {
        let i = choose|i: int| 0 <= i < s.len() && s[i] == d;
        lemma_case_char_not_letter(s[i], d);
        assert(ascii_upper(s)[i] == d);
        assert(ascii_lower(s)[i] == d);
    }
}

/// The extension of a plain file name with its ASCII letters in another case
/// is its extension with the letters in that case.
proof fn lemma_case_of_extension(name: Seq<char>)
    requires
        plain_file_name(name),
    ensures
        plain_file_name(ascii_upper(name)),
        plain_file_name(ascii_lower(name)),
        name_extension(ascii_upper(name)) == (match name_extension(name) {
            Some(ext) => Some(ascii_upper(ext)),
            None => None,
        }),
        name_extension(ascii_lower(name)) == (match name_extension(name) {
            Some(ext) => Some(ascii_lower(ext)),
            None => None,
        }),
{
    lemma_case_keeps_dots(name);
    lemma_last_dot_bounds(name);
    lemma_case_keeps_other(name, '/');
    lemma_case_keeps_other(name, '\\');
    lemma_case_keeps_other(name, ':');
    let up = ascii_upper(name);
    let low = ascii_lower(name);
    reveal_strlit("..");
    if name.len() == 2 {
        lemma_case_char_not_letter(name[0], '.');
        lemma_case_char_not_letter(name[1], '.');
        if up == ".."@ || low == ".."@ {
            assert(up[0] == '.' || low[0] == '.');
            assert(name =~= ".."@);
        }
        if name == ".."@ {
            assert(up =~= ".."@);
            assert(low =~= ".."@);
        }
    }
    let d = last_dot(name);
    if !(name == ".."@ || d <= 0) {
        assert(up.subrange(d + 1, up.len() as int) =~= ascii_upper(
            name.subrange(d + 1, name.len() as int),
        ));
        assert(low.subrange(d + 1, low.len() as int) =~= ascii_lower(
            name.subrange(d + 1, name.len() as int),
        ));
    }
}

/// Whether a file name names an image or a video does not depend on the case
/// of its letters: for a plain file name (one path component) whose
/// extension is ASCII text, putting its ASCII letters in upper or in lower
/// case keeps it a plain name with an ASCII extension, and keeps the answer
/// of [`GreedMeme::check_extension`], which is [`plain_media_name`] there.
pub proof fn lemma_check_extension_ignores_case(name: Seq<char>)
    requires
        plain_file_name(name),
        ascii_extension(name),
    ensures
        plain_file_name(ascii_upper(name)),
        ascii_extension(ascii_upper(name)),
        plain_media_name(ascii_upper(name)) == plain_media_name(name),
        plain_file_name(ascii_lower(name)),
        ascii_extension(ascii_lower(name)),
        plain_media_name(ascii_lower(name)) == plain_media_name(name),
{
    lemma_case_of_extension(name);
    match name_extension(name) {
        Some(ext) => {
            assert(ascii_text(ascii_upper(ext)));
            assert(ascii_text(ascii_lower(ext)));
            assert(ascii_lower(ascii_upper(ext)) =~= ascii_lower(ext));
            assert(ascii_lower(ascii_lower(ext)) =~= ascii_lower(ext));
        },
        None => {},
    }
}

/// The content type of an attachment is an image or a video type.
pub open spec fn is_media_content_type(content_type: Seq<char>) -> bool {
    has_prefix(content_type, "image"@) || has_prefix(content_type, "video"@)
}

/// An attachment is an image or a video: by its content type when Discord
/// gives one, else by the extension of its file name.
pub open spec fn is_media_attachment(a: Attachment) -> bool {
    match a.content_type {
        Some(ct) => is_media_content_type(ct@),
        None => has_media_extension(a.filename@),
    }
}

/// A message is a meme: a regular message of a human author whose first
/// attachment is an image or a video.
pub open spec fn is_meme_message(msg: Message) -> bool {
    &&& !msg.author_bot
    &&& msg.regular
    &&& msg.attachments@.len() > 0
    &&& is_media_attachment(msg.attachments@[0])
}

/// The meme that a meme message gives: its id and the link of its first
/// attachment.
pub open spec fn meme_of_message(msg: Message, meme: GreedMeme) -> bool {
    &&& meme.message_id == msg.id
    &&& meme.url@ == msg.attachments@[0].url@
    &&& meme.meme_type == MemeType::DiscordAttachment
}

/// Whether `ext` (already in lower case) is a media extension.
pub fn is_media_ext(ext: &str) -> (r: bool)
    ensures
        r == is_media_extension(ext@),
{
    text_eq(ext, "png") || text_eq(ext, "jpg") || text_eq(ext, "jpeg") || text_eq(ext, "gif")
        || text_eq(ext, "tiff") || text_eq(ext, "heic") || text_eq(ext, "heif") || text_eq(
        ext,
        "bmp",
    ) || text_eq(ext, "raw") || text_eq(ext, "webp") || text_eq(ext, "svg") || text_eq(ext, "mkv")
        || text_eq(ext, "mp4") || text_eq(ext, "avi") || text_eq(ext, "webm") || text_eq(
        ext,
        "mpeg",
    ) || text_eq(ext, "mp4v") || text_eq(ext, "mpeg4") || text_eq(ext, "mov") || text_eq(
        ext,
        "movie",
    ) || text_eq(ext, "gifv") || text_eq(ext, "h264")
}

impl GreedMeme {
    /// Whether a file name names an image or a video; see
    /// [`has_media_extension`].
    pub fn check_extension(filename: &str) -> (r: bool)
        ensures
            r == has_media_extension(filename@),
            plain_file_name(filename@) && ascii_extension(filename@) ==> r == plain_media_name(
                filename@,
            ),
    {
        match file_extension(filename) {
            Some(ext) => {
                let lower = to_lowercase(ext.as_str());
                is_media_ext(lower.as_str())
            },
            None => false,
        }
    }

    /// The meme of a message with at least one attachment, if its first
    /// attachment is an image or a video.
    pub fn from_attachments(msg: &Message) -> (r: Option<GreedMeme>)
        requires
            msg.attachments@.len() > 0,
        ensures
            r is Some <==> is_media_attachment(msg.attachments@[0]),
            r matches Some(meme) ==> meme_of_message(*msg, meme),
    {
        let attachment = &msg.attachments[0];
        let is_media = match &attachment.content_type {
            Some(content_type) => starts_with(content_type.as_str(), "image") || starts_with(
                content_type.as_str(),
                "video",
            ),
            None => GreedMeme::check_extension(attachment.filename.as_str()),
        };
        if is_media {
            Some(
                GreedMeme {
                    message_id: msg.id,
                    url: attachment.url.clone(),
                    meme_type: MemeType::DiscordAttachment,
                },
            )
        } else {
            None
        }
    }

    /// The meme of a message, if the message is a meme; see
    /// [`is_meme_message`].
    pub fn parse(msg: &Message) -> (r: Option<GreedMeme>)
        ensures
            r is Some <==> is_meme_message(*msg),
            r matches Some(meme) ==> meme_of_message(*msg, meme),
    {
        if msg.author_bot || !msg.regular {
            return None;
        }
        if msg.attachments.len() > 0 {
            GreedMeme::from_attachments(msg)
        } else {
            None
        }
    }
}

/// A regular message of a human author that has attachments is a meme
/// exactly when its first attachment is an image or a video, whatever the
/// attachments after it are and however many there are: only the first
/// attachment decides.
pub proof fn lemma_first_attachment_decides(msg: Message)
    requires
        !msg.author_bot,
        msg.regular,
        msg.attachments@.len() > 0,
    ensures
        is_meme_message(msg) <==> is_media_attachment(msg.attachments@[0]),
{
}

/// A message by a bot, or one that is not a regular message, is never a
/// meme, and neither is a message without attachments.
pub proof fn lemma_non_memes(msg: Message)
    requires
        msg.author_bot || !msg.regular || msg.attachments@.len() == 0,
    ensures
        !is_meme_message(msg),
{
}

} // verus!
