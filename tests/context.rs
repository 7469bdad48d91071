use bs_site_builder::classify::FileMoveType;
use bs_site_builder::context::{assemble_context, context_slot, mj_markdown, ContextSlot};
use bs_site_builder::scan::file_list;
use bs_site_builder::text::LINE_MARKER;

#[test]
fn files_feed_their_maps() {
    let names = [
        "_data/site.json",
        "broken.json",
        "data.json",
        "extra.json5",
        "main.rs",
        "notes.md",
        "photo.png",
    ];
    let files = file_list(names.iter().map(|s| s.to_string()).collect());
    let sources: Vec<Option<String>> = files
        .iter()
        .map(|f| match f.input_path().as_str() {
            "_data/site.json" => Some("{\"title\": \"x\"}".to_string()),
            "broken.json" => Some("{".to_string()),
            "data.json" => Some("{\"a\": [1, 2]}".to_string()),
            "extra.json5" => Some("{a: 1, // note\n}".to_string()),
            "main.rs" => Some("fn main() {}\n".to_string()),
            "notes.md" => Some("# Hi".to_string()),
            _ => None,
        })
        .collect();
    let ctx = assemble_context(&files, &sources);
    let data_keys: Vec<&str> = ctx.data.iter().map(|(k, _)| k.as_str()).collect();
    assert_eq!(data_keys, vec!["data.json", "extra.json5"]);
    assert_eq!(ctx.markdown, vec![("notes.md".to_string(), "<h1>Hi</h1>".to_string())]);
    assert_eq!(ctx.highlight.len(), 1);
    assert_eq!(ctx.highlight[0].0, "main.rs");
    assert!(ctx.highlight[0].1.starts_with(LINE_MARKER));
    assert!(ctx.highlight[0].1.contains("source rust"));
}

#[test]
fn data_file_is_copied_and_loaded() {
    let files = file_list(vec!["data.json".to_string()]);
    assert_eq!(files[0].move_type, FileMoveType::Copy);
    assert_eq!(files[0].output_path(), Some("data.json".to_string()));
    assert_eq!(context_slot(&files[0]), Some(ContextSlot::Data));
    let ctx = assemble_context(&files, &vec![Some("{\"k\": true}".to_string())]);
    assert_eq!(ctx.data.len(), 1);
    assert_eq!(ctx.data[0].0, "data.json");
}

#[test]
fn slots_by_extension() {
    let files = file_list(
        ["a.md", "b.css", "c.html", "d.txt", "_e.md", "f.json5"].iter().map(|s| s.to_string()).collect(),
    );
    let slots: Vec<Option<ContextSlot>> = files.iter().map(context_slot).collect();
    assert_eq!(
        slots,
        vec![
            None,
            Some(ContextSlot::Markdown),
            Some(ContextSlot::Highlight),
            Some(ContextSlot::Highlight),
            None,
            Some(ContextSlot::Data5),
        ]
    );
}

#[test]
fn markdown_filter() {
    assert_eq!(mj_markdown("# Hi".to_string()), "<h1>Hi</h1>");
    assert_eq!(mj_markdown("<b>raw</b>".to_string()), "<p><b>raw</b></p>");
}
