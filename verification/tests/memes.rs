use botofgreed::meme::{is_media_ext, Attachment, GreedMeme, MemeType, Message};

fn attachment(url: &str, filename: &str, content_type: Option<&str>) -> Attachment {
    Attachment {
        url: url.to_string(),
        filename: filename.to_string(),
        content_type: content_type.map(|c| c.to_string()),
    }
}

fn message(id: u64, bot: bool, regular: bool, attachments: Vec<Attachment>) -> Message {
    Message { id, author_bot: bot, regular, attachments }
}

#[test]
fn check_extension_media_files() {
    assert!(GreedMeme::check_extension("cat.png"));
    assert!(GreedMeme::check_extension("cat.PNG"));
    assert!(GreedMeme::check_extension("dir/clip.Mp4"));
    assert!(GreedMeme::check_extension("a.b.jpeg"));
    assert!(GreedMeme::check_extension("x.h264"));
}

#[test]
fn check_extension_other_files() {
    assert!(!GreedMeme::check_extension("notes.txt"));
    assert!(!GreedMeme::check_extension("archive.tar.gz"));
    assert!(!GreedMeme::check_extension("noext"));
    assert!(!GreedMeme::check_extension(".png"));
    assert!(!GreedMeme::check_extension("png"));
    assert!(!GreedMeme::check_extension(""));
}

#[test]
fn media_extension_list() {
    for ext in ["png", "jpg", "jpeg", "gif", "tiff", "heic", "heif", "bmp", "raw", "webp", "svg",
        "mkv", "mp4", "avi", "webm", "mpeg", "mp4v", "mpeg4", "mov", "movie", "gifv", "h264"] {
        assert!(is_media_ext(ext), "{}", ext);
    }
    assert!(!is_media_ext("PNG"));
    assert!(!is_media_ext("pdf"));
    assert!(!is_media_ext(""));
}

#[test]
fn from_attachments_by_content_type() {
    let msg = message(7, false, true, vec![attachment("https://cdn/x", "x.bin", Some("image/png"))]);
    let meme = GreedMeme::from_attachments(&msg).unwrap();
    assert_eq!(meme.message_id, 7);
    assert_eq!(meme.url, "https://cdn/x");
    assert_eq!(meme.meme_type, MemeType::DiscordAttachment);

    let msg = message(8, false, true, vec![attachment("u", "x.png", Some("application/pdf"))]);
    assert!(GreedMeme::from_attachments(&msg).is_none());

    let msg = message(9, false, true, vec![attachment("u", "x", Some("video/mp4"))]);
    assert!(GreedMeme::from_attachments(&msg).is_some());
}

#[test]
fn from_attachments_by_extension() {
    let msg = message(1, false, true, vec![attachment("u", "funny.GIF", None)]);
    assert!(GreedMeme::from_attachments(&msg).is_some());
    let msg = message(1, false, true, vec![attachment("u", "funny.doc", None)]);
    assert!(GreedMeme::from_attachments(&msg).is_none());
}

#[test]
fn from_attachments_looks_at_first_only() {
    let msg = message(
        1,
        false,
        true,
        vec![attachment("a", "a.txt", None), attachment("b", "b.png", None)],
    );
    assert!(GreedMeme::from_attachments(&msg).is_none());
}

#[test]
fn parse_skips_bots_and_system_messages() {
    let att = || vec![attachment("u", "a.png", None)];
    assert!(GreedMeme::parse(&message(1, true, true, att())).is_none());
    assert!(GreedMeme::parse(&message(1, false, false, att())).is_none());
    assert!(GreedMeme::parse(&message(1, false, true, vec![])).is_none());
    let meme = GreedMeme::parse(&message(3, false, true, att())).unwrap();
    assert_eq!(meme.message_id, 3);
    assert_eq!(meme.url, "u");
}

#[test]
fn meme_clone_is_equal() {
    let meme = GreedMeme { message_id: 4, url: "x".to_string(), meme_type: MemeType::FileURL };
    let copy = meme.clone();
    assert_eq!(copy.message_id, 4);
    assert_eq!(copy.url, "x");
    assert_eq!(copy.meme_type, MemeType::FileURL);
}

#[test]
fn check_extension_ignores_letter_case() {
    for name in ["Cat.Png", "clip.MOV", "a.b.Jpeg", "notes.TXT", "noext", ".GIF", "x.H264", "..", "..."] {
        let upper = name.to_ascii_uppercase();
        let lower = name.to_ascii_lowercase();
        assert_eq!(GreedMeme::check_extension(&upper), GreedMeme::check_extension(name), "{}", name);
        assert_eq!(GreedMeme::check_extension(&lower), GreedMeme::check_extension(name), "{}", name);
    }
    assert!(GreedMeme::check_extension("CLIP.MOV"));
    assert!(!GreedMeme::check_extension(".GIF"));
    assert!(!GreedMeme::check_extension(".."));
    assert!(!GreedMeme::check_extension("gif."));
}
