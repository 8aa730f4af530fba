use onenote_linux::graph::{encode, multipart_page, GraphPageExport};
use onenote_linux::html::find_generated_content_id;
use onenote_linux::import::{merge_adjacent_text_blocks, safe_filename, ProjectBuilder};
use onenote_linux::model::{
    Asset, CanvasLayout, EditorBlock, EditorPage, Project, DEFAULT_CANVAS_HEIGHT,
    DEFAULT_CANVAS_WIDTH,
};
use onenote_linux::native::{
    Content, Notebook, NotebookEntry, OutlineElement, OutlineItem, Page, PageBlock, Paragraph,
    Section, TextRun,
};
use onenote_linux::paths::{asset_path, assets_dir, export_assets_name, file_format, FileFormat};
use onenote_linux::workflow::safe_project_name;

fn paragraph(text: &str) -> Content {
    Content::Paragraph(Paragraph {
        text: text.to_owned(),
        runs: vec![TextRun { text: text.to_owned(), hidden: false }],
    })
}

fn element(text: &str) -> OutlineItem {
    OutlineItem::Element(OutlineElement {
        level: 1,
        content: vec![paragraph(text)],
        children: Vec::new(),
    })
}

fn document(text: &str) -> Notebook {
    Notebook {
        name: "Notebook".to_owned(),
        entries: vec![NotebookEntry::Section(Section {
            name: "Section".to_owned(),
            pages: vec![Page {
                title: "Page".to_owned(),
                blocks: vec![PageBlock::Outline(vec![element(text)])],
            }],
        })],
    }
}

fn import_entry(builder: &mut ProjectBuilder, entry: &NotebookEntry, group_path: &Vec<String>) {
    match entry {
        NotebookEntry::Section(section) => {
            let mut pages = Vec::new();
            for page in &section.pages {
                let mut blocks = Vec::new();
                for block in &page.blocks {
                    if let PageBlock::Outline(items) = block {
                        blocks.extend(builder.import_outline(items));
                    }
                }
                pages.push(EditorPage {
                    id: builder.id(),
                    title: page.title.clone(),
                    level: 0,
                    author: None,
                    created_at: String::new(),
                    updated_at: String::new(),
                    canvas_width: DEFAULT_CANVAS_WIDTH,
                    canvas_height: DEFAULT_CANVAS_HEIGHT,
                    blocks,
                });
            }
            builder.add_section(group_path, &section.name, pages);
        }
        NotebookEntry::SectionGroup(name, entries) => {
            let mut path = group_path.clone();
            path.push(name.clone());
            for child in entries {
                import_entry(builder, child, &path);
            }
        }
    }
}

fn import(notebook: &Notebook) -> Project {
    let mut builder = ProjectBuilder::new(notebook.name.clone(), None);
    for entry in &notebook.entries {
        import_entry(&mut builder, entry, &Vec::new());
    }
    builder.finish()
}

fn first_paragraph(notebook: &Notebook) -> &Paragraph {
    let NotebookEntry::Section(section) = &notebook.entries[0] else {
        unreachable!()
    };
    let PageBlock::Outline(items) = &section.pages[0].blocks[0] else {
        unreachable!()
    };
    let OutlineItem::Element(element) = &items[0] else {
        unreachable!()
    };
    let Content::Paragraph(paragraph) = &element.content[0] else {
        unreachable!()
    };
    paragraph
}

#[test]
fn recognizes_all_openable_formats_case_insensitively() {
    assert_eq!(file_format("Notebook.onl"), FileFormat::WorkingCopy);
    assert_eq!(file_format("Section.ONE"), FileFormat::Section);
    assert_eq!(file_format("Notebook.OnePkg"), FileFormat::Package);
    assert_eq!(file_format("Open Notebook.onetoc2"), FileFormat::NotebookIndex);
    assert_eq!(file_format("notes.txt"), FileFormat::Unsupported);
}

#[test]
fn project_name_is_safe_for_default_files() {
    assert_eq!(safe_project_name("Algorithms / 2026"), "Algorithms---2026");
}

#[test]
fn percent_encodes_graph_ids() {
    assert_eq!(encode("a/b c"), "a%2Fb%20c");
}

#[test]
fn multipart_uses_crlf_and_presentation_part() {
    let page = GraphPageExport {
        title: "Page".to_owned(),
        html: "<html></html>".to_owned(),
        resources: Vec::new(),
        warnings: Vec::new(),
    };
    let body = String::from_utf8(multipart_page(&page, "Boundary")).unwrap();
    assert!(body.contains("name=\"Presentation\"\r\nContent-Type: text/html"));
    assert!(body.ends_with("--Boundary--\r\n"));
}

#[test]
fn finds_generated_id_for_updateable_content() {
    let html = r#"<body><div id="div:{123}" data-id="onenote-linux-content">x</div></body>"#;
    assert_eq!(find_generated_content_id(html).as_deref(), Some("div:{123}"));
}

#[test]
fn finds_generated_id_when_attributes_are_reordered() {
    let html = "<div data-id='onenote-linux-content' class='x' id='content-id'></div>";
    assert_eq!(find_generated_content_id(html).as_deref(), Some("content-id"));
}

#[test]
fn filename_sanitization_blocks_paths() {
    assert_eq!(safe_filename("../../secret.txt"), "secret.txt");
}

#[test]
fn adjacent_paragraphs_share_one_editable_outline_box() {
    let mut blocks = vec![
        EditorBlock::Text {
            id: 1,
            text: "First paragraph".to_owned(),
            indent: 0,
            layout: CanvasLayout::default_layout(),
        },
        EditorBlock::Text {
            id: 2,
            text: "Nested paragraph".to_owned(),
            indent: 1,
            layout: CanvasLayout::default_layout(),
        },
    ];

    merge_adjacent_text_blocks(&mut blocks);

    assert_eq!(blocks.len(), 1);
    let EditorBlock::Text { text, .. } = &blocks[0] else {
        panic!("expected text block");
    };
    assert_eq!(text, "First paragraph\n  Nested paragraph");
}

#[test]
fn markdown_export_copies_assets() {
    let path = "/exports/export.md";
    let mut project = Project::empty();
    let asset_id = project.allocate_id();
    project.assets.push(Asset {
        id: asset_id,
        filename: "diagram.png".to_owned(),
        media_type: "image/png".to_owned(),
        stored_name: "00000004-diagram.png".to_owned(),
        size: 4,
        bytes: vec![1, 2, 3, 4],
    });
    let block_id = project.allocate_id();
    project.sections[0].pages[0].blocks.push(EditorBlock::Image {
        id: block_id,
        asset_id,
        layout: CanvasLayout::default_layout(),
    });

    let markdown = project.markdown(&export_assets_name(path));
    assert!(markdown.contains("export.md.assets/00000004-diagram.png"));
    let writes = project.asset_writes(&assets_dir(path));
    assert!(writes.error.is_none());
    assert_eq!(writes.writes.len(), 1);
    assert_eq!(writes.writes[0].0, 0);
    assert_eq!(writes.writes[0].1, "/exports/export.md.assets/00000004-diagram.png");
    assert_eq!(project.assets[writes.writes[0].0].bytes, [1, 2, 3, 4]);
}

#[test]
fn project_assets_cannot_escape_the_asset_directory() {
    let path = "/projects/unsafe.onl";
    let mut project = Project::empty();
    let asset_id = project.allocate_id();
    project.assets.push(Asset {
        id: asset_id,
        filename: "unsafe.txt".to_owned(),
        media_type: "text/plain".to_owned(),
        stored_name: "../unsafe.txt".to_owned(),
        size: 4,
        bytes: b"nope".to_vec(),
    });

    let writes = project.asset_writes(&assets_dir(path));
    assert!(writes.error.is_some());
    assert!(writes.writes.is_empty());
    assert!(asset_path(&assets_dir(path), "../unsafe.txt").is_err());
}

#[test]
fn maps_unique_same_size_text_back_to_native_paragraph() {
    let mut document = document("Code");
    let baseline = import(&document);
    let mut project = import(&document);
    let EditorBlock::Text { text, .. } = &mut project.sections[0].pages[0].blocks[0] else {
        unreachable!()
    };
    *text = "Data".to_owned();

    let plan = project.native_edit_plan(&baseline, &document).unwrap();
    plan.apply(&mut document).unwrap();

    assert_eq!(first_paragraph(&document).text, "Data");
}

#[test]
fn rejects_layout_changes() {
    let document = document("Code");
    let baseline = import(&document);
    let mut project = import(&document);
    let EditorBlock::Text { layout, .. } = &mut project.sections[0].pages[0].blocks[0] else {
        unreachable!()
    };
    layout.x = (f32::from_bits(layout.x) + 10.0).to_bits();
    assert!(project.native_edit_plan(&baseline, &document).is_err());
}

#[test]
fn reports_the_page_when_native_object_count_changes() {
    let document = document("Code");
    let baseline = import(&document);
    let mut project = import(&document);
    let block_id = project.allocate_id();
    project.sections[0].pages[0].blocks.push(EditorBlock::Text {
        id: block_id,
        text: "New box".to_owned(),
        indent: 0,
        layout: CanvasLayout::default_layout(),
    });

    let error = match project.native_edit_plan(&baseline, &document) {
        Ok(_) => panic!("structural native edit was accepted"),
        Err(error) => error.message(),
    };
    assert!(error.contains("Page “Page” in section “Section”"));
    assert!(error.contains("has 2 object(s), but the native source has 1"));
    assert!(error.contains("Save as .onl"));
}

#[test]
fn rejects_editor_boxes_merged_from_multiple_native_paragraphs() {
    let mut document = document("One");
    let NotebookEntry::Section(section) = &mut document.entries[0] else {
        unreachable!()
    };
    let PageBlock::Outline(items) = &mut section.pages[0].blocks[0] else {
        unreachable!()
    };
    items.push(element("Two"));
    let baseline = import(&document);
    let mut project = import(&document);
    let EditorBlock::Text { text, .. } = &mut project.sections[0].pages[0].blocks[0] else {
        unreachable!()
    };
    text.push('!');

    assert!(project.native_edit_plan(&baseline, &document).is_err());
}

#[test]
fn maps_shorter_text_when_it_stays_inside_formatting_boundaries() {
    let mut document = document("Zażółć");
    let baseline = import(&document);
    let mut project = import(&document);
    let EditorBlock::Text { text, .. } = &mut project.sections[0].pages[0].blocks[0] else {
        unreachable!()
    };
    *text = "Żółć".to_owned();

    let plan = project.native_edit_plan(&baseline, &document).unwrap();
    plan.apply(&mut document).unwrap();

    let paragraph = first_paragraph(&document);
    assert_eq!(paragraph.text, "Żółć");
    assert_eq!(paragraph.runs[0].text, "Żółć");
}
