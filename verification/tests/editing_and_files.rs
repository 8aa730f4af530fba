use onenote_linux::history::{push_history, PageHistory, PageSnapshot, HISTORY_LIMIT};
use onenote_linux::import::{
    append_element_text, safe_filename, table_rows, visible_text, PageObject, ProjectBuilder,
};
use onenote_linux::model::{
    push_selected, remove_and_reselect, CanvasLayout, EditorBlock, EditorPage, Project,
};
use onenote_linux::native::{
    Content, NativeFile, NativeImage, OutlineElement, OutlineItem, Paragraph, Table, TableCell,
    TableRow, TextRun,
};
use onenote_linux::paths::{
    asset_path, assets_dir, check_format_version, export_assets_name, file_format, native_extension,
    FileFormat,
};
use onenote_linux::text::{trim, trim_char};
use onenote_linux::workflow::{
    imported_save_path, native_save_check, native_saved_status, open_action, opened_status,
    safe_project_name, save_target, OpenAction, SaveTarget,
};

fn text_block(id: u64, text: &str) -> EditorBlock {
    EditorBlock::Text { id, text: text.to_owned(), indent: 0, layout: CanvasLayout::default_layout() }
}

fn block_texts(page: &EditorPage) -> Vec<String> {
    page.blocks
        .iter()
        .map(|block| match block {
            EditorBlock::Text { text, .. } => text.clone(),
            _ => String::from("?"),
        })
        .collect()
}

fn paragraph(text: &str) -> Content {
    Content::Paragraph(Paragraph { text: text.to_owned(), runs: Vec::new() })
}

fn element(level: u8, content: Vec<Content>, children: Vec<OutlineItem>) -> OutlineElement {
    OutlineElement { level, content, children }
}

#[test]
fn undo_and_redo_restore_page_states() {
    let mut project = Project::empty();
    let page = &mut project.sections[0].pages[0];
    let mut history = PageHistory::new();
    assert!(!history.can_undo());

    history.record(PageSnapshot::capture(page));
    page.blocks.push(text_block(10, "added"));
    page.canvas_width = 7;
    assert!(history.can_undo());

    assert!(history.undo(page));
    assert_eq!(page.blocks.len(), 1);
    assert_ne!(page.canvas_width, 7);
    assert!(history.can_redo());

    assert!(history.redo(page));
    assert_eq!(block_texts(page), vec![String::new(), "added".to_owned()]);
    assert_eq!(page.canvas_width, 7);

    assert!(!history.redo(page));
    history.record(PageSnapshot::capture(page));
    assert!(!history.can_redo());
}

#[test]
fn pending_edits_are_recorded_once_committed() {
    let mut project = Project::empty();
    let page = &mut project.sections[0].pages[0];
    let mut history = PageHistory::new();
    history.begin_edit(page);
    page.blocks.clear();
    history.begin_edit(page);
    history.commit();
    assert!(history.pending.is_none());
    assert!(history.undo(page));
    assert_eq!(page.blocks.len(), 1);

    history.begin_edit(page);
    history.discard();
    assert!(history.pending.is_none());
    history.clear();
    assert!(!history.can_undo() && !history.can_redo());
}

#[test]
fn history_keeps_at_most_the_limit() {
    let project = Project::empty();
    let page = &project.sections[0].pages[0];
    let mut stack = Vec::new();
    for width in 0..(HISTORY_LIMIT as u32 + 5) {
        let mut snapshot = PageSnapshot::capture(page);
        snapshot.canvas_width = width;
        push_history(&mut stack, snapshot);
    }
    assert_eq!(stack.len(), HISTORY_LIMIT);
    assert_eq!(stack[0].canvas_width, 5);
    assert_eq!(stack[HISTORY_LIMIT - 1].canvas_width, HISTORY_LIMIT as u32 + 4);
}

#[test]
fn hidden_runs_are_not_visible_text() {
    let paragraph = Paragraph {
        text: "Hello secret world".to_owned(),
        runs: vec![
            TextRun { text: "Hello ".to_owned(), hidden: false },
            TextRun { text: "secret ".to_owned(), hidden: true },
            TextRun { text: "world".to_owned(), hidden: false },
        ],
    };
    assert_eq!(visible_text(&paragraph), "Hello world");
    let plain = Paragraph { text: "plain".to_owned(), runs: Vec::new() };
    assert_eq!(visible_text(&plain), "plain");
}

#[test]
fn cell_text_joins_paragraphs_and_direct_children() {
    let nested = element(2, vec![paragraph("deep")], Vec::new());
    let child = element(1, vec![paragraph("child")], Vec::new());
    let top = element(
        0,
        vec![paragraph("a"), Content::Unknown, paragraph("b")],
        vec![
            OutlineItem::Element(child),
            OutlineItem::Group(vec![
                OutlineItem::Element(nested),
                OutlineItem::Group(vec![OutlineItem::Element(element(0, vec![paragraph("skipped")], Vec::new()))]),
            ]),
        ],
    );
    let mut out = String::new();
    append_element_text(&top, &mut out);
    assert_eq!(out, "a\nb\nchild\ndeep");

    let table = Table {
        content: vec![TableRow {
            cells: vec![
                TableCell { content: vec![element(0, vec![paragraph("x"), paragraph("y")], Vec::new())] },
                TableCell { content: Vec::new() },
            ],
        }],
    };
    assert_eq!(table_rows(&table), vec![vec!["x\ny".to_owned(), String::new()]]);
}

#[test]
fn outlines_become_blocks_with_assets() {
    let mut builder = ProjectBuilder::new("Imported".to_owned(), Some("/n/Notebook.one".to_owned()));
    let items = vec![OutlineItem::Element(element(
        2,
        vec![
            paragraph("First"),
            paragraph("   "),
            paragraph("Second"),
            Content::Image(NativeImage {
                alt: None,
                filename: Some("dir/diagram.png".to_owned()),
                data: Some(vec![1, 2, 3]),
                size: 3,
            }),
            Content::Attachment(NativeFile { filename: "notes.txt".to_owned(), data: None, size: 9 }),
            Content::Unknown,
        ],
        Vec::new(),
    ))];
    let blocks = builder.import_outline(&items);
    assert_eq!(blocks.len(), 4);
    match &blocks[0] {
        EditorBlock::Text { id, text, indent, .. } => {
            assert_eq!(*id, 1);
            assert_eq!(text, "First\n  Second");
            assert_eq!(*indent, 1);
        }
        _ => panic!("expected a text box"),
    }
    match &blocks[1] {
        EditorBlock::Image { id, asset_id, .. } => {
            assert_eq!((*id, *asset_id), (4, 3));
        }
        _ => panic!("expected an image"),
    }
    match &blocks[3] {
        EditorBlock::Unsupported { id, description, .. } => {
            assert_eq!(*id, 7);
            assert_eq!(description, "unknown outline content");
        }
        _ => panic!("expected an unsupported block"),
    }
    let project = builder.finish();
    assert_eq!(project.next_id, 8);
    assert_eq!(project.assets.len(), 2);
    assert_eq!(project.assets[0].stored_name, "00000003-diagram.png");
    assert_eq!(project.assets[0].media_type, "image/png");
    assert_eq!(project.assets[0].bytes, vec![1, 2, 3]);
    assert_eq!(project.assets[1].stored_name, "00000005-notes.txt");
    assert_eq!(project.assets[1].media_type, "text/plain");
    assert!(project.assets[1].bytes.is_empty());
}

#[test]
fn sections_are_named_by_their_groups() {
    let mut builder = ProjectBuilder::new("N".to_owned(), None);
    builder.add_section(&vec!["Work".to_owned(), "2026".to_owned()], "Plans", Vec::new());
    builder.add_section(&Vec::new(), "Loose", Vec::new());
    let project = builder.finish();
    assert_eq!(project.sections[0].name, "Work / 2026 / Plans");
    assert_eq!(project.sections[0].id, 1);
    assert_eq!(project.sections[1].name, "Loose");
    assert_eq!(project.sections[1].id, 2);
}

#[test]
fn asset_locations_stay_inside_their_directory() {
    assert_eq!(assets_dir("/home/me/notes.onl"), "/home/me/notes.onl.assets");
    assert_eq!(export_assets_name("/home/me/export.md"), "export.md.assets");
    assert_eq!(asset_path("/a", "00000001-x.png").unwrap(), "/a/00000001-x.png");
    assert!(asset_path("/a", "/etc/passwd").is_err());
    assert!(asset_path("/a", "sub/x").is_err());
    let error = asset_path("/a", "..").unwrap_err();
    assert_eq!(error.message(), "invalid project asset path: ..");
}

#[test]
fn project_versions_are_checked() {
    assert!(check_format_version(1).is_ok());
    assert!(check_format_version(2).is_ok());
    assert_eq!(check_format_version(3).unwrap_err(), "unsupported project version 3 (latest 2)");
    assert_eq!(check_format_version(0).unwrap_err(), "unsupported project version 0 (latest 2)");
}

#[test]
fn saving_goes_by_format() {
    assert!(matches!(save_target("a.onl"), SaveTarget::WorkingCopy));
    assert!(matches!(save_target("a.ONE"), SaveTarget::Native));
    match save_target("a.onetoc2") {
        SaveTarget::Refused(message) => assert!(message.starts_with("Saving to .onetoc2 is not supported")),
        _ => panic!("expected a refusal"),
    }
    assert!(matches!(open_action("x.onepkg", "x.onepkg"), OpenAction::Import));
    match open_action("x.doc", "/x.doc") {
        OpenAction::Refuse(message) => assert_eq!(
            message,
            "Unsupported notebook type: /x.doc. Open a .onl, .one, .onepkg, or .onetoc2 file."
        ),
        _ => panic!("expected a refusal"),
    }
    assert_eq!(imported_save_path("s.one").as_deref(), Some("s.one"));
    assert_eq!(imported_save_path("n.onetoc2"), None);
    assert_eq!(native_extension(FileFormat::Package), "onepkg");
}

#[test]
fn native_saves_need_a_matching_baseline() {
    assert_eq!(
        native_save_check(&None, "a.one").unwrap_err(),
        "This project has no native OneNote baseline. Save it as .onl."
    );
    assert_eq!(
        native_save_check(&Some("b.onetoc2".to_owned()), "a.one").unwrap_err(),
        "b.onetoc2 is not a writable .one or .onepkg native baseline. Save as .onl."
    );
    assert_eq!(
        native_save_check(&Some("b.one".to_owned()), "a.onepkg").unwrap_err(),
        "Native container conversion is not implemented: b.one can only be saved as another .one, or as .onl."
    );
    assert!(native_save_check(&Some("b.one".to_owned()), "c.one").is_ok());
}

#[test]
fn status_lines_name_the_file() {
    assert_eq!(opened_status("n.one", "/n.one", 0), "Opened /n.one");
    assert_eq!(opened_status("n.one", "/n.one", 3), "Opened /n.one with 3 parser warning(s)");
    assert_eq!(
        opened_status("n.onetoc2", "/n.onetoc2", 0),
        "Opened /n.onetoc2 (use Save As to choose a writable file)"
    );
    assert_eq!(native_saved_status("/s.one", true), "Saved /s.one");
    assert_eq!(native_saved_status("/s.one", false), "Saved /s.one; newer in-app edits remain unsaved");
}

#[test]
fn default_file_names_fall_back_to_notebook() {
    assert_eq!(safe_project_name("--//--"), "notebook");
    assert_eq!(safe_project_name("Zażółć_1"), "Zażółć_1");
    assert_eq!(trim("\t a b \n"), "a b");
    assert_eq!(trim_char("--x-y--", '-'), "x-y");
}

#[test]
fn markdown_lists_sections_pages_and_blocks() {
    let mut project = Project::empty();
    project.sections[0].pages[0].blocks = vec![
        text_block(3, "Hello"),
        EditorBlock::Table {
            id: 5,
            rows: vec![vec!["a".to_owned(), "b".to_owned()], vec!["c".to_owned()]],
            layout: CanvasLayout::default_layout(),
        },
        EditorBlock::Ink { id: 6, stroke_count: 2, strokes: Vec::new(), layout: CanvasLayout::default_layout() },
    ];
    let markdown = project.markdown("x.assets");
    assert_eq!(
        markdown,
        "# New notebook\n\n## Section\n\n### New page\n\nHello\n\n| a | b |\n| --- | --- |\n| c |  |\n\n_[Ink: 2 strokes]_\n\n"
    );
}

#[test]
fn stored_asset_names_are_sanitized() {
    assert_eq!(safe_filename("a:b?.txt"), "ab.txt");
    assert_eq!(safe_filename("C:\\Users\\me\\photo.jpg"), "photo.jpg");
    assert_eq!(safe_filename(".."), "asset.bin");
    assert_eq!(safe_filename("dir/"), "asset.bin");
    assert_eq!(safe_filename(""), "asset.bin");
}

#[test]
fn new_objects_have_their_defaults() {
    let section = onenote_linux::model::new_section(9);
    assert_eq!(section.name, "New section");
    assert!(section.pages.is_empty());
    let page = onenote_linux::model::empty_page(4, 5);
    assert_eq!(page.title, "New page");
    assert_eq!(f32::from_bits(page.canvas_width), 1600.0);
    assert_eq!(f32::from_bits(page.canvas_height), 1200.0);
    assert_eq!(page.blocks[0].id(), 5);
    match onenote_linux::model::new_table(7) {
        EditorBlock::Table { id, rows, layout } => {
            assert_eq!(id, 7);
            assert_eq!(rows, vec![vec!["Column 1".to_owned(), "Column 2".to_owned()], vec![String::new(), String::new()]]);
            assert_eq!(
                (f32::from_bits(layout.x), f32::from_bits(layout.y), f32::from_bits(layout.width), f32::from_bits(layout.height)),
                (120.0, 180.0, 520.0, 180.0)
            );
        }
        _ => panic!("expected a table"),
    }
    let text = onenote_linux::model::new_text_box(8);
    let layout = text.layout();
    assert_eq!(
        (f32::from_bits(layout.x), f32::from_bits(layout.y), f32::from_bits(layout.width), f32::from_bits(layout.height)),
        (96.0, 120.0, 440.0, 140.0)
    );
}

#[test]
fn deleting_a_block_removes_only_that_block() {
    let mut page = onenote_linux::model::empty_page(1, 2);
    page.blocks.push(text_block(3, "a"));
    page.blocks.push(text_block(4, "b"));
    assert!(page.remove_block(3));
    assert_eq!(block_texts(&page), vec![String::new(), "b".to_owned()]);
    assert!(!page.remove_block(42));
    assert_eq!(page.blocks.len(), 2);
    page.blocks[0].layout_mut().x = 7;
    assert_eq!(page.blocks[0].layout().x, 7);
}

#[test]
fn page_objects_become_blocks_and_assets() {
    let mut builder = ProjectBuilder::new("N".to_owned(), None);
    let mut blocks = Vec::new();
    let layout = CanvasLayout::default_layout();
    builder.import_page_object(
        &PageObject::Image { filename: None, data: Some(vec![9]), size: 1, layout },
        &mut blocks,
    );
    builder.import_page_object(&PageObject::Unknown, &mut blocks);
    assert_eq!(blocks.len(), 2);
    assert!(matches!(blocks[0], EditorBlock::Image { id: 2, asset_id: 1, .. }));
    match &blocks[1] {
        EditorBlock::Unsupported { id, description, .. } => {
            assert_eq!(*id, 3);
            assert_eq!(description, "unknown page content");
        }
        _ => panic!("expected an unsupported block"),
    }
    let project = builder.finish();
    assert_eq!(project.assets[0].stored_name, "00000001-image.bin");
    assert_eq!(project.assets[0].media_type, "application/octet-stream");
}

#[test]
fn removing_an_item_keeps_the_selection_in_range() {
    let mut items = vec![10, 20, 30];
    assert_eq!(remove_and_reselect(&mut items, 2, 2), 1);
    assert_eq!(items, vec![10, 20]);
    assert_eq!(remove_and_reselect(&mut items, 0, 1), 0);
    assert_eq!(items, vec![20]);
    assert_eq!(remove_and_reselect(&mut items, 0, 0), 0);
    assert!(items.is_empty());
    let mut items = vec![1, 2, 3];
    assert_eq!(remove_and_reselect(&mut items, 2, 0), 0);
}

#[test]
fn a_new_item_is_selected() {
    let mut items = vec!["a"];
    assert_eq!(push_selected(&mut items, "b"), 1);
    assert_eq!(items, vec!["a", "b"]);
}

#[test]
fn default_file_names_are_stable() {
    for name in ["Algorithms / 2026", "--//--", "Zażółć_1", "  My notes! "] {
        let once = safe_project_name(name);
        assert_eq!(safe_project_name(&once), once);
    }
}

#[test]
fn saved_native_files_open_as_their_format() {
    for format in [FileFormat::Section, FileFormat::Package] {
        let name = format!("x.{}", native_extension(format));
        assert_eq!(file_format(&name), format);
    }
    assert_eq!(file_format(&format!("x.{}", native_extension(FileFormat::NotebookIndex))), FileFormat::WorkingCopy);
}

#[test]
fn stored_names_drop_controls_and_long_tails() {
    assert_eq!(safe_filename("a\u{7}b|c\u{85}.txt"), "abc.txt");
    assert_eq!(safe_filename("..."), "asset.bin");
    let long = "é".repeat(200);
    let stored = safe_filename(&long);
    assert_eq!(stored, "é".repeat(127));
    assert_eq!(stored.len(), 254);
}

#[test]
fn unicode_white_space_is_trimmed() {
    assert_eq!(trim(" a "), "a");
    assert_eq!(trim("\u{a0}\u{2003}x y\u{3000}\u{85}"), "x y");
    assert_eq!(trim("\u{200b}x"), "\u{200b}x");
}
