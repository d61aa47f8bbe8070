use fia_docs_bot::model::{Document, DocumentStatus, Image};
use fia_docs_bot::publisher::{create_message, message_with_role, thread_audit_reason, thread_name};
use fia_docs_bot::raster::{get_converted_files, MagickError};

#[test]
fn one_page_render_lists_exactly_the_single_file() {
    let multi = vec![false; 101];
    let files = get_converted_files("doc_0", true, &multi);
    assert_eq!(files, vec!["./tmp/doc_0/0.jpg".to_string()]);
}

#[test]
fn multi_page_render_lists_consecutive_pages() {
    let mut multi = vec![false; 101];
    multi[0] = true;
    multi[1] = true;
    multi[2] = true;
    // A gap: page 4 exists but page 3 does not, so it is not reported.
    multi[4] = true;
    let files = get_converted_files("doc_1", false, &multi);
    assert_eq!(
        files,
        vec![
            "./tmp/doc_1/0-0.jpg".to_string(),
            "./tmp/doc_1/0-1.jpg".to_string(),
            "./tmp/doc_1/0-2.jpg".to_string(),
        ]
    );
}

#[test]
fn oversized_render_is_capped_at_101_pages() {
    // Probe more than the adapter ever reads: every file exists.
    let multi = vec![true; 500];
    let files = get_converted_files("big", false, &multi);
    assert_eq!(files.len(), 101);
    assert_eq!(files[0], "./tmp/big/0-0.jpg");
    assert_eq!(files[100], "./tmp/big/0-100.jpg");
}

#[test]
fn magick_error_carries_stderr() {
    let e = MagickError("convert: no decode delegate".to_string());
    assert_eq!(e.message(), "convert: no decode delegate");
}

fn doc() -> Document {
    Document {
        id: 9,
        event_id: 4,
        title: "Entry List".to_string(),
        href: "https://www.fia.com/x.pdf".to_string(),
        mirror: "https://fia.ort.dev/mirror/2024/E/x.pdf".to_string(),
        status: DocumentStatus::ReadyToPost,
        created_at: 1_700_000_000,
    }
}

fn image(page: u64) -> Image {
    Image {
        id: 100 + page,
        document_id: 9,
        page_number: page,
        url: format!("https://fia.ort.dev/img/2024/E/9-{page}.jpg"),
        created_at: 1_700_000_000,
    }
}

#[test]
fn message_first_embed_carries_document_fields() {
    let images = vec![image(0), image(1), image(2)];
    let m = create_message(&doc(), &images);
    assert_eq!(m.content, "");
    assert_eq!(m.embeds.len(), 3);
    let main = &m.embeds[0];
    assert_eq!(main.title.as_deref(), Some("Entry List"));
    assert_eq!(main.url.as_deref(), Some("https://www.fia.com/x.pdf"));
    assert_eq!(
        main.description.as_deref(),
        Some("[mirror](https://fia.ort.dev/mirror/2024/E/x.pdf)")
    );
    assert_eq!(main.color, Some(0x003063));
    assert_eq!(
        main.thumbnail.as_deref(),
        Some("https://static.ort.dev/fiadontsueme/fia_logo.png")
    );
    assert_eq!(main.timestamp, Some(1_700_000_000));
    assert_eq!(main.author.as_deref(), Some("FIA Document"));
    assert_eq!(main.image.as_deref(), Some("https://fia.ort.dev/img/2024/E/9-0.jpg"));
    // The later embeds carry one page image each, under the same link.
    assert_eq!(m.embeds[1].url.as_deref(), Some("https://www.fia.com/x.pdf"));
    assert_eq!(m.embeds[1].image.as_deref(), Some("https://fia.ort.dev/img/2024/E/9-1.jpg"));
    assert_eq!(m.embeds[2].image.as_deref(), Some("https://fia.ort.dev/img/2024/E/9-2.jpg"));
}

#[test]
fn message_without_images_has_one_embed() {
    let m = create_message(&doc(), &vec![]);
    assert_eq!(m.embeds.len(), 1);
    assert!(m.embeds[0].image.is_none());
}

#[test]
fn role_mention_is_applied_per_guild() {
    let m = create_message(&doc(), &vec![]);
    let with_role = message_with_role(m, "424242");
    assert_eq!(with_role.content, "<@&424242>");
    assert_eq!(with_role.embeds.len(), 1);
}

#[test]
fn thread_naming_and_audit_reason() {
    let name = thread_name(fia_docs_bot::model::Series::F1, 2024, "Monaco Grand Prix");
    assert_eq!(name, "F1 2024 Monaco Grand Prix");
    assert_eq!(thread_audit_reason(), "New Approved FIA Event");
    assert_eq!(fia_docs_bot::publisher::THREAD_AUTO_ARCHIVE_DAYS, 3);
}
