use bs_site_builder::render::{
    copy_jobs, error_page, page_for, render_jobs, render_outputs, RenderLog, RendererStatus,
    ERROR_PAGE_HEAD, ERROR_PAGE_TAIL,
};
use bs_site_builder::scan::file_list;

fn paths(list: &[&str]) -> Vec<String> {
    list.iter().map(|s| s.to_string()).collect()
}

#[test]
fn error_page_shows_the_error() {
    let page = error_page("template not found: x.html");
    assert_eq!(page, format!("{}template not found: x.html{}", ERROR_PAGE_HEAD, ERROR_PAGE_TAIL));
    assert!(page.starts_with("<!DOCTYPE html>"));
    assert!(page.ends_with("</pre></body>\n"));
}

#[test]
fn jobs_of_a_site() {
    let files = file_list(paths(&["index.html", "about.html", "_x.html", "a.txt", "img/b.png"]));
    let pages = render_jobs(&files, "docs");
    let got: Vec<(String, String)> =
        pages.iter().map(|j| (j.template.clone(), j.output_path.clone())).collect();
    assert_eq!(
        got,
        vec![
            ("about.html".to_string(), "docs/about/index.html".to_string()),
            ("index.html".to_string(), "docs/index.html".to_string()),
        ]
    );
    let copies = copy_jobs(&files, "content", "docs");
    let got: Vec<(String, String)> =
        copies.iter().map(|j| (j.input_path.clone(), j.output_path.clone())).collect();
    assert_eq!(
        got,
        vec![
            ("content/a.txt".to_string(), "docs/a.txt".to_string()),
            ("content/img/b.png".to_string(), "docs/img/b.png".to_string()),
        ]
    );
}

#[test]
fn skipped_files_have_no_jobs() {
    let files = file_list(paths(&["_partials/nav.html", "_draft.html", "_data/site.json"]));
    assert!(render_jobs(&files, "docs").is_empty());
    assert!(copy_jobs(&files, "content", "docs").is_empty());
}

#[test]
fn a_failed_page_does_not_stop_its_sibling() {
    let files = file_list(paths(&["a.html", "b.html"]));
    let jobs = render_jobs(&files, "docs");
    let outcomes = vec![Err("syntax error".to_string()), Ok("<p>b</p>".to_string())];
    let written = render_outputs(&jobs, &outcomes);
    assert_eq!(written[1], ("docs/b/index.html".to_string(), "<p>b</p>".to_string()));
    assert_eq!(written[0], ("docs/a/index.html".to_string(), error_page("syntax error")));
    assert_eq!(page_for(&Ok("x".to_string())), "x");
}

#[test]
fn log_errors_are_picked_out() {
    let mut log = RenderLog::new();
    log.push(RendererStatus::AddTemplateDirSuccess { path: "content".to_string() });
    log.push(RendererStatus::GetTemplateError {
        template: "a.html".to_string(),
        error_text: "missing".to_string(),
    });
    log.push(RendererStatus::RenderContentSuccess { template: "b.html".to_string() });
    log.push(RendererStatus::RenderContentError {
        template: "c.html".to_string(),
        error_text: "bad".to_string(),
    });
    let errors = log.errors();
    assert_eq!(errors.len(), 2);
    assert!(matches!(errors[0], RendererStatus::GetTemplateError { .. }));
    assert!(matches!(errors[1], RendererStatus::RenderContentError { .. }));
}
