use onenote_linux::import::ProjectBuilder;
use onenote_linux::model::{
    EditorBlock, EditorPage, EditorSection, Project, DEFAULT_CANVAS_HEIGHT, DEFAULT_CANVAS_WIDTH,
};
use onenote_linux::native::{
    replace_paragraph_text, Content, NativeEditError, Notebook, NotebookEntry, OutlineElement,
    OutlineItem, Page, PageBlock, Paragraph, Section, Table, TableCell, TableRow, TextRun,
};
use onenote_linux::plan::{NativeEditPlan, TextEdit, TitleEdit};

fn run(text: &str) -> TextRun {
    TextRun { text: text.to_owned(), hidden: false }
}

fn paragraph(text: &str) -> Content {
    Content::Paragraph(Paragraph { text: text.to_owned(), runs: vec![run(text)] })
}

fn element(content: Vec<Content>) -> OutlineItem {
    OutlineItem::Element(OutlineElement { level: 1, content, children: Vec::new() })
}

fn notebook(pages: Vec<Page>) -> Notebook {
    Notebook {
        name: "Notebook".to_owned(),
        entries: vec![NotebookEntry::Section(Section { name: "Section".to_owned(), pages })],
    }
}

fn page(title: &str, items: Vec<OutlineItem>) -> Page {
    Page { title: title.to_owned(), blocks: vec![PageBlock::Outline(items)] }
}

fn import(notebook: &Notebook) -> Project {
    let mut builder = ProjectBuilder::new(notebook.name.clone(), None);
    for entry in &notebook.entries {
        if let NotebookEntry::Section(section) = entry {
            let mut pages = Vec::new();
            for native_page in &section.pages {
                let mut blocks = Vec::new();
                for block in &native_page.blocks {
                    if let PageBlock::Outline(items) = block {
                        blocks.extend(builder.import_outline(items));
                    }
                }
                pages.push(EditorPage {
                    id: builder.id(),
                    title: native_page.title.clone(),
                    level: 0,
                    author: None,
                    created_at: String::new(),
                    updated_at: String::new(),
                    canvas_width: DEFAULT_CANVAS_WIDTH,
                    canvas_height: DEFAULT_CANVAS_HEIGHT,
                    blocks,
                });
            }
            builder.add_section(&Vec::new(), &section.name, pages);
        }
    }
    builder.finish()
}

fn text_paragraph(text: &str, runs: &[&str]) -> Paragraph {
    Paragraph { text: text.to_owned(), runs: runs.iter().map(|r| run(r)).collect() }
}

#[test]
fn replacement_keeps_each_run_but_the_last() {
    let mut p = text_paragraph("Hello world", &["Hello ", "world"]);
    replace_paragraph_text(&mut p, &"Hello there".to_owned()).unwrap();
    assert_eq!(p.text, "Hello there");
    assert_eq!(p.runs[0].text, "Hello ");
    assert_eq!(p.runs[1].text, "there");
    let mut plain = Paragraph { text: "abc".to_owned(), runs: Vec::new() };
    replace_paragraph_text(&mut plain, &"xy".to_owned()).unwrap();
    assert_eq!(plain.text, "xy");
}

#[test]
fn replacement_errors_name_the_reason() {
    let mut p = text_paragraph("ab", &["ab"]);
    let error = replace_paragraph_text(&mut p, &"abc".to_owned()).unwrap_err();
    assert!(matches!(error, NativeEditError::DoesNotFit));
    assert_eq!(error.message(), "native text replacement does not fit the existing property allocation");
    assert_eq!(p.text, "ab");

    let mut p = text_paragraph("ab", &["xy"]);
    let error = replace_paragraph_text(&mut p, &"a".to_owned()).unwrap_err();
    assert!(matches!(error, NativeEditError::FormattingMismatch));

    let mut p = text_paragraph("abcd", &["ab", "cd"]);
    let error = replace_paragraph_text(&mut p, &"a".to_owned()).unwrap_err();
    assert!(matches!(error, NativeEditError::CrossesRunBoundary));
    assert_eq!(error.message(), "shortening this paragraph would cross a formatting-run boundary");

    let mut p = text_paragraph("ab", &["a", "b"]);
    let error = replace_paragraph_text(&mut p, &"😀".to_owned()).unwrap_err();
    assert!(matches!(error, NativeEditError::SplitsCharacter));
    assert_eq!(error.message(), "replacement splits a UTF-16 formatting boundary");
}

#[test]
fn title_and_table_edits_are_written_back() {
    let table = Content::Table(Table {
        content: vec![TableRow {
            cells: vec![TableCell {
                content: vec![OutlineElement { level: 0, content: vec![paragraph("Cell")], children: Vec::new() }],
            }],
        }],
    });
    let mut document = notebook(vec![page("Title", vec![element(vec![table])])]);
    let baseline = import(&document);
    let mut project = import(&document);
    project.sections[0].pages[0].title = "Titre".to_owned();
    let EditorBlock::Table { rows, .. } = &mut project.sections[0].pages[0].blocks[0] else {
        unreachable!()
    };
    rows[0][0] = "Data".to_owned();

    let plan = project.native_edit_plan(&baseline, &document).unwrap();
    assert!(!plan.is_empty());
    plan.apply(&mut document).unwrap();
    let NotebookEntry::Section(section) = &document.entries[0] else { unreachable!() };
    assert_eq!(section.pages[0].title, "Titre");
    let PageBlock::Outline(items) = &section.pages[0].blocks[0] else { unreachable!() };
    let OutlineItem::Element(element) = &items[0] else { unreachable!() };
    let Content::Table(table) = &element.content[0] else { unreachable!() };
    let Content::Paragraph(cell) = &table.content[0].cells[0].content[0].content[0] else {
        unreachable!()
    };
    assert_eq!(cell.text, "Data");
}

#[test]
fn unchanged_projects_plan_nothing() {
    let document = notebook(vec![page("Title", vec![element(vec![paragraph("Body")])])]);
    let project = import(&document);
    let plan = project.native_edit_plan(&project, &document).unwrap();
    assert!(plan.is_empty());
}

#[test]
fn structural_changes_are_refused_with_counts() {
    let document = notebook(vec![page("Title", vec![element(vec![paragraph("Body")])])]);
    let baseline = import(&document);

    let mut project = import(&document);
    project.sections.push(EditorSection { id: 99, name: "Extra".to_owned(), pages: Vec::new() });
    let error = project.native_edit_plan(&baseline, &document).unwrap_err();
    assert!(matches!(error, NativeEditError::SectionCountChanged { project: 2, native: 1 }));
    assert_eq!(
        error.message(),
        "This notebook has 2 section(s), but the native source has 1. Native writing cannot yet add or delete sections. Save as .onl to preserve these edits."
    );

    let mut project = import(&document);
    project.sections[0].pages.clear();
    let error = project.native_edit_plan(&baseline, &document).unwrap_err();
    assert_eq!(
        error.message(),
        "Section “Section” has 0 page(s), but the native source has 1. Native writing cannot yet add or delete pages. Save as .onl to preserve these edits."
    );
}

#[test]
fn edits_of_repeated_text_are_refused() {
    let document = notebook(vec![page("Page", vec![element(vec![paragraph("Page")])])]);
    let baseline = import(&document);
    let mut project = import(&document);
    project.sections[0].pages[0].title = "Leaf".to_owned();
    let error = project.native_edit_plan(&baseline, &document).unwrap_err();
    assert!(matches!(error, NativeEditError::TextNotUnique));
    assert_eq!(error.message(), "the original text is not unique enough for a safe in-place native update");
}

#[test]
fn table_dimension_changes_are_refused() {
    let table = Content::Table(Table {
        content: vec![TableRow {
            cells: vec![TableCell {
                content: vec![OutlineElement { level: 0, content: vec![paragraph("Cell")], children: Vec::new() }],
            }],
        }],
    });
    let document = notebook(vec![page("Title", vec![element(vec![table])])]);
    let baseline = import(&document);
    let mut project = import(&document);
    let EditorBlock::Table { rows, .. } = &mut project.sections[0].pages[0].blocks[0] else {
        unreachable!()
    };
    rows[0].push("New".to_owned());
    let error = project.native_edit_plan(&baseline, &document).unwrap_err();
    assert!(matches!(error, NativeEditError::TableDimensionsChanged));
}

#[test]
fn stale_plans_are_refused_when_applied() {
    let fresh = || notebook(vec![page("Title", vec![element(vec![paragraph("Body")])])]);

    let plan = NativeEditPlan {
        titles: vec![TitleEdit { section: 3, page: 0, original: "Title".to_owned(), replacement: "X".to_owned() }],
        paragraphs: Vec::new(),
    };
    assert!(matches!(plan.apply(&mut fresh()), Err(NativeEditError::SectionMappingChanged)));

    let plan = NativeEditPlan {
        titles: vec![TitleEdit { section: 0, page: 4, original: "Title".to_owned(), replacement: "X".to_owned() }],
        paragraphs: Vec::new(),
    };
    assert!(matches!(plan.apply(&mut fresh()), Err(NativeEditError::PageMappingChanged)));

    let plan = NativeEditPlan {
        titles: vec![TitleEdit { section: 0, page: 0, original: "Other".to_owned(), replacement: "X".to_owned() }],
        paragraphs: Vec::new(),
    };
    let error = plan.apply(&mut fresh()).unwrap_err();
    assert_eq!(error.message(), "native page title changed since import");

    let plan = NativeEditPlan {
        titles: Vec::new(),
        paragraphs: vec![TextEdit { original: "Missing".to_owned(), replacement: "X".to_owned() }],
    };
    let error = plan.apply(&mut fresh()).unwrap_err();
    assert!(matches!(error, NativeEditError::ParagraphMappingChanged));
    assert_eq!(error.message(), "native paragraph mapping changed since import");
}

#[test]
fn refused_replacements_leave_the_paragraph() {
    for (text, runs, new) in [
        ("ab", vec!["ab"], "abc"),
        ("ab", vec!["xy"], "a"),
        ("abcd", vec!["ab", "cd"], "a"),
        ("ab", vec!["a", "b"], "😀"),
    ] {
        let mut p = text_paragraph(text, &runs);
        assert!(replace_paragraph_text(&mut p, &new.to_owned()).is_err());
        assert_eq!(p.text, text);
        let kept: Vec<&str> = p.runs.iter().map(|r| r.text.as_str()).collect();
        assert_eq!(kept, runs);
    }
}

fn set_x(project: &mut Project, bits: u32) {
    match &mut project.sections[0].pages[0].blocks[0] {
        EditorBlock::Text { layout, .. } => layout.x = bits,
        _ => unreachable!(),
    }
}

#[test]
fn pixel_values_compare_as_written() {
    let document = notebook(vec![page("Title", vec![element(vec![paragraph("Body")])])]);
    let mut baseline = import(&document);
    let mut project = import(&document);
    set_x(&mut baseline, 0.0f32.to_bits());
    set_x(&mut project, (-0.0f32).to_bits());
    baseline.sections[0].pages[0].canvas_width = f32::NAN.to_bits();
    project.sections[0].pages[0].canvas_width = f32::INFINITY.to_bits();
    assert!(project.native_edit_plan(&baseline, &document).unwrap().is_empty());
    set_x(&mut project, 1.0f32.to_bits());
    let error = project.native_edit_plan(&baseline, &document).unwrap_err();
    assert!(matches!(error, NativeEditError::UnsupportedEdit));
}

#[test]
fn a_split_character_stops_after_the_runs_already_cut() {
    let mut p = text_paragraph("abc", &["a", "b", "c"]);
    let error = replace_paragraph_text(&mut p, &"x😀".to_owned()).unwrap_err();
    assert!(matches!(error, NativeEditError::SplitsCharacter));
    assert_eq!(p.text, "abc");
    let runs: Vec<&str> = p.runs.iter().map(|r| r.text.as_str()).collect();
    assert_eq!(runs, vec!["x", "b", "c"]);
}
