//! The writes of one build: which file goes where, and what is written for
//! a page whose template could not be resolved or rendered.
use crate::classify::{opt_view, FileDetails, FileMoveType};
use crate::order::key_sorted;
use crate::paths::{join, join_paths};
use crate::scan::{file_keys, lemma_file_listing_is_canonical};
use vstd::prelude::*;
use vstd::string::*;

verus! {

/// What the engine made of one page: its text, or the error it reported.
pub type Outcome = Result<String, String>;

pub open spec fn outcome_view(o: Outcome) -> Result<Seq<char>, Seq<char>> {
    match o {
        Ok(t) => Ok(t@),
        Err(e) => Err(e@),
    }
}

pub const ERROR_PAGE_HEAD: &'static str = "<!DOCTYPE html>\n<html lang=\"en\">\n<head>\n<meta charset=\"UTF-8\">\n<meta name=\"viewport\" content=\"width=device-width, initial-scale=1.0\">\n<style>\nbody { background-color: black; color: #aaa; }\n</style>\n</head>\n<body><pre>";

pub const ERROR_PAGE_TAIL: &'static str = "</pre></body>\n";

/// The page that stands in for one that failed: a plain page that shows the
/// error text.
pub open spec fn error_page_spec(error_text: Seq<char>) -> Seq<char> {
    ERROR_PAGE_HEAD@ + error_text + ERROR_PAGE_TAIL@
}

pub fn error_page(error_text: &str) -> (r: String)
    ensures
        r@ == error_page_spec(error_text@),
{
    String::from_str(ERROR_PAGE_HEAD).concat(error_text).concat(ERROR_PAGE_TAIL)
}

/// What is written for a page.
pub open spec fn page_text(o: Result<Seq<char>, Seq<char>>) -> Seq<char> {
    match o {
        Ok(t) => t,
        Err(e) => error_page_spec(e),
    }
}

pub fn page_for(outcome: &Outcome) -> (r: String)
    ensures
        r@ == page_text(outcome_view(*outcome)),
{
    match outcome {
        Ok(t) => t.clone(),
        Err(e) => error_page(e.as_str()),
    }
}

/// A page to render: its template is named by its path relative to the
/// content root.
#[derive(Debug, Clone)]
pub struct RenderJob {
    pub template: String,
    pub output_path: String,
}

/// A file to copy.
#[derive(Debug, Clone)]
pub struct CopyJob {
    pub input_path: String,
    pub output_path: String,
}

pub open spec fn file_output(f: FileDetails) -> Seq<char> {
    match (opt_view(f.output_dir), opt_view(f.output_name)) {
        (Some(d), Some(n)) => join(d, n),
        _ => Seq::empty(),
    }
}

/// (template, output path) of each page among `files`, in order.
pub open spec fn page_jobs(files: Seq<FileDetails>, output_root: Seq<char>) -> Seq<
    (Seq<char>, Seq<char>),
>
    decreases files.len(),
{
    if files.len() == 0 {
        Seq::empty()
    } else {
        let rest = page_jobs(files.drop_last(), output_root);
        let f = files.last();
        if f.move_type == FileMoveType::Transform {
            rest.push((f.input_path_spec(), join(output_root, file_output(f))))
        } else {
            rest
        }
    }
}

/// (input path, output path) of each copied file among `files`, in order.
pub open spec fn copy_jobs_spec(
    files: Seq<FileDetails>,
    content_root: Seq<char>,
    output_root: Seq<char>,
) -> Seq<(Seq<char>, Seq<char>)>
    decreases files.len(),
{
    if files.len() == 0 {
        Seq::empty()
    } else {
        let rest = copy_jobs_spec(files.drop_last(), content_root, output_root);
        let f = files.last();
        if f.move_type == FileMoveType::Copy {
            rest.push(
                (join(content_root, f.input_path_spec()), join(output_root, file_output(f))),
            )
        } else {
            rest
        }
    }
}

pub open spec fn render_views(v: Seq<RenderJob>) -> Seq<(Seq<char>, Seq<char>)> {
    v.map_values(|j: RenderJob| (j.template@, j.output_path@))
}

pub open spec fn copy_views(v: Seq<CopyJob>) -> Seq<(Seq<char>, Seq<char>)> {
    v.map_values(|j: CopyJob| (j.input_path@, j.output_path@))
}

fn output_of(f: &FileDetails) -> (r: String)
    ensures
        r@ == file_output(*f),
{
    match (&f.output_dir, &f.output_name) {
        (Some(d), Some(n)) => join_paths(d.as_str(), n.as_str()),
        _ => String::new(),
    }
}

/// The pages among `files`, each with its template and its output path
/// under `output_root`; skipped and copied files have none.
pub fn render_jobs(files: &Vec<FileDetails>, output_root: &str) -> (r: Vec<RenderJob>)
    ensures
        render_views(r@) == page_jobs(files@, output_root@),
{
    let mut r: Vec<RenderJob> = Vec::new();
    let n = files.len();
    let mut i: usize = 0;
    while i < n
        invariant
            n == files@.len(),
            i <= n,
            render_views(r@) == page_jobs(files@.take(i as int), output_root@),
        decreases n - i,
    {
        let f = &files[i];
        proof {
            assert(files@.take(i + 1).drop_last() =~= files@.take(i as int));
            assert(files@.take(i + 1).last() == files@[i as int]);
        }
        if f.move_type == FileMoveType::Transform {
            let out = output_of(f);
            let job = RenderJob {
                template: f.input_path(),
                output_path: join_paths(output_root, out.as_str()),
            };
            let ghost before = r@;
            r.push(job);
            proof {
                assert(render_views(r@) =~= render_views(before).push(
                    (job.template@, job.output_path@),
                ));
            }
        }
        i = i + 1;
    }
    assert(files@.take(n as int) =~= files@);
    r
}

/// The copied files among `files`, each with its path under `content_root`
/// and its path under `output_root`.
pub fn copy_jobs(files: &Vec<FileDetails>, content_root: &str, output_root: &str) -> (r: Vec<
    CopyJob,
>)
    ensures
        copy_views(r@) == copy_jobs_spec(files@, content_root@, output_root@),
{
    let mut r: Vec<CopyJob> = Vec::new();
    let n = files.len();
    let mut i: usize = 0;
    while i < n
        invariant
            n == files@.len(),
            i <= n,
            copy_views(r@) == copy_jobs_spec(files@.take(i as int), content_root@, output_root@),
        decreases n - i,
    {
        let f = &files[i];
        proof {
            assert(files@.take(i + 1).drop_last() =~= files@.take(i as int));
            assert(files@.take(i + 1).last() == files@[i as int]);
        }
        if f.move_type == FileMoveType::Copy {
            let out = output_of(f);
            let input = f.input_path();
            let job = CopyJob {
                input_path: join_paths(content_root, input.as_str()),
                output_path: join_paths(output_root, out.as_str()),
            };
            let ghost before = r@;
            r.push(job);
            proof {
                assert(copy_views(r@) =~= copy_views(before).push(
                    (job.input_path@, job.output_path@),
                ));
            }
        }
        i = i + 1;
    }
    assert(files@.take(n as int) =~= files@);
    r
}

/// (output path, text) written for each page.
pub open spec fn written(
    jobs: Seq<(Seq<char>, Seq<char>)>,
    outcomes: Seq<Result<Seq<char>, Seq<char>>>,
) -> Seq<(Seq<char>, Seq<char>)> {
    Seq::new(jobs.len(), |i: int| (jobs[i].1, page_text(outcomes[i])))
}

pub open spec fn outcome_views(v: Seq<Outcome>) -> Seq<Result<Seq<char>, Seq<char>>> {
    v.map_values(|o: Outcome| outcome_view(o))
}

pub open spec fn pair_views(v: Seq<(String, String)>) -> Seq<(Seq<char>, Seq<char>)> {
    v.map_values(|p: (String, String)| p@)
}

/// What to write for each page, given what the engine made of each: its
/// text, or the error page where it failed.
pub fn render_outputs(jobs: &Vec<RenderJob>, outcomes: &Vec<Outcome>) -> (r: Vec<(String, String)>)
    requires
        jobs@.len() == outcomes@.len(),
    ensures
        pair_views(r@) == written(render_views(jobs@), outcome_views(outcomes@)),
{
    let mut r: Vec<(String, String)> = Vec::new();
    let n = jobs.len();
    let mut i: usize = 0;
    let ghost all = outcomes@;
    while i < n
        invariant
            n == jobs@.len(),
            n == all.len(),
            all == outcomes@,
            i <= n,
            r@.len() == i,
            forall|k: int|
                0 <= k < i ==> (#[trigger] r@[k])@ == (
                    jobs@[k].output_path@,
                    page_text(outcome_view(all[k])),
                ),
        decreases n - i,
    {
        let text = page_for(&outcomes[i]);
        r.push((jobs[i].output_path.clone(), text));
        i = i + 1;
    }
    assert(pair_views(r@) =~= written(render_views(jobs@), outcome_views(all)));
    r
}

/// A page that renders is written as rendered, whatever became of the other
/// pages of the build: a failure elsewhere changes nothing of it.
pub proof fn lemma_render_failure_is_isolated(
    jobs: Seq<(Seq<char>, Seq<char>)>,
    outcomes: Seq<Result<Seq<char>, Seq<char>>>,
    i: int,
    j: int,
    other: Result<Seq<char>, Seq<char>>,
)
    requires
        jobs.len() == outcomes.len(),
        0 <= i < jobs.len(),
        0 <= j < jobs.len(),
        i != j,
        outcomes[i] is Ok,
    ensures
        written(jobs, outcomes)[i] == (jobs[i].1, outcomes[i]->Ok_0),
        written(jobs, outcomes.update(j, other))[i] == written(jobs, outcomes)[i],
{
}

/// `job` is the page job of a rendered file of `files`.
pub open spec fn page_of_rendered(
    files: Seq<FileDetails>,
    output_root: Seq<char>,
    job: (Seq<char>, Seq<char>),
) -> bool {
    exists|i: int|
        0 <= i < files.len() && (#[trigger] files[i]).move_type == FileMoveType::Transform && job == (
            files[i].input_path_spec(),
            join(output_root, file_output(files[i])),
        )
}

/// Every page job comes from a file that is rendered: a skipped file gives
/// none, so nothing of it reaches the output.
pub proof fn lemma_pages_come_from_rendered_files(files: Seq<FileDetails>, output_root: Seq<char>)
    ensures
        forall|j: int|
            0 <= j < page_jobs(files, output_root).len() ==> page_of_rendered(
                files,
                output_root,
                #[trigger] page_jobs(files, output_root)[j],
            ),
    decreases files.len(),
{
    if files.len() > 0 {
        let rest = files.drop_last();
        lemma_pages_come_from_rendered_files(rest, output_root);
        let last = files.len() - 1;
        assert forall|j: int| 0 <= j < page_jobs(files, output_root).len() implies page_of_rendered(
            files,
            output_root,
            #[trigger] page_jobs(files, output_root)[j],
        ) by {
            let job = page_jobs(files, output_root)[j];
            if j < page_jobs(rest, output_root).len() {
                assert(job == page_jobs(rest, output_root)[j]);
                assert(page_of_rendered(rest, output_root, job));
                let i = choose|i: int|
                    0 <= i < rest.len() && (#[trigger] rest[i]).move_type == FileMoveType::Transform
                        && job == (
                        rest[i].input_path_spec(),
                        join(output_root, file_output(rest[i])),
                    );
                assert(files[i] == rest[i]);
            } else {
                assert(files[last] == files.last());
                assert(files[last].move_type == FileMoveType::Transform);
                assert(job == (
                    files[last].input_path_spec(),
                    join(output_root, file_output(files[last])),
                ));
            }
        }
    }
}

/// Every copy job comes from a file that is copied: a skipped file gives
/// none, so nothing of it reaches the output.
pub proof fn lemma_copies_come_from_copied_files(
    files: Seq<FileDetails>,
    content_root: Seq<char>,
    output_root: Seq<char>,
)
    ensures
        forall|j: int|
            #![trigger copy_jobs_spec(files, content_root, output_root)[j]]
            0 <= j < copy_jobs_spec(files, content_root, output_root).len() ==> exists|i: int|
                0 <= i < files.len() && (#[trigger] files[i]).move_type == FileMoveType::Copy
                    && copy_jobs_spec(files, content_root, output_root)[j] == (
                    join(content_root, files[i].input_path_spec()),
                    join(output_root, file_output(files[i])),
                ),
    decreases files.len(),
{
    if files.len() > 0 {
        let rest = files.drop_last();
        lemma_copies_come_from_copied_files(rest, content_root, output_root);
        let last = files.len() - 1;
        assert forall|j: int|
            #![trigger copy_jobs_spec(files, content_root, output_root)[j]]
            0 <= j < copy_jobs_spec(files, content_root, output_root).len() implies exists|i: int|
                0 <= i < files.len() && (#[trigger] files[i]).move_type == FileMoveType::Copy
                    && copy_jobs_spec(files, content_root, output_root)[j] == (
                    join(content_root, files[i].input_path_spec()),
                    join(output_root, file_output(files[i])),
                ) by {
            if j < copy_jobs_spec(rest, content_root, output_root).len() {
                assert(copy_jobs_spec(files, content_root, output_root)[j] == copy_jobs_spec(
                    rest,
                    content_root,
                    output_root,
                )[j]);
                let i = choose|i: int|
                    0 <= i < rest.len() && (#[trigger] rest[i]).move_type == FileMoveType::Copy
                        && copy_jobs_spec(rest, content_root, output_root)[j] == (
                        join(content_root, rest[i].input_path_spec()),
                        join(output_root, file_output(rest[i])),
                    );
                assert(files[i] == rest[i]);
            } else {
                assert(files[last] == files.last());
                assert(files[last].move_type == FileMoveType::Copy);
            }
        }
    }
}

/// Listings whose records agree one by one.
pub open spec fn same_records(a: Seq<FileDetails>, b: Seq<FileDetails>) -> bool {
    a.len() == b.len() && forall|i: int| 0 <= i < a.len() ==> (#[trigger] a[i])@ == b[i]@
}

proof fn lemma_jobs_follow_records(
    a: Seq<FileDetails>,
    b: Seq<FileDetails>,
    content_root: Seq<char>,
    output_root: Seq<char>,
)
    requires
        same_records(a, b),
    ensures
        page_jobs(a, output_root) == page_jobs(b, output_root),
        copy_jobs_spec(a, content_root, output_root) == copy_jobs_spec(b, content_root, output_root),
    decreases a.len(),
{
    if a.len() > 0 {
        let (x, y) = (a.drop_last(), b.drop_last());
        assert forall|i: int| 0 <= i < x.len() implies (#[trigger] x[i])@ == y[i]@ by {
            assert(a[i]@ == b[i]@);
        }
        lemma_jobs_follow_records(x, y, content_root, output_root);
        assert(a.last()@ == b.last()@);
    }
}

/// Two builds of the same content plan the same writes: the same pages to
/// the same paths and the same copies, whatever order the walk found the
/// files in; where the engine gives the same text for each page, the same
/// text is written.
pub proof fn lemma_rebuild_writes_the_same(
    a: Seq<FileDetails>,
    b: Seq<FileDetails>,
    content_root: Seq<char>,
    output_root: Seq<char>,
    outcomes: Seq<Result<Seq<char>, Seq<char>>>,
)
    requires
        forall|i: int| 0 <= i < a.len() ==> (#[trigger] a[i]).wf(),
        forall|i: int| 0 <= i < b.len() ==> (#[trigger] b[i]).wf(),
        key_sorted(file_keys(a)),
        key_sorted(file_keys(b)),
        file_keys(a).to_multiset() == file_keys(b).to_multiset(),
    ensures
        page_jobs(a, output_root) == page_jobs(b, output_root),
        copy_jobs_spec(a, content_root, output_root) == copy_jobs_spec(b, content_root, output_root),
        written(page_jobs(a, output_root), outcomes) == written(page_jobs(b, output_root), outcomes),
{
    lemma_file_listing_is_canonical(a, b);
    lemma_jobs_follow_records(a, b, content_root, output_root);
}

/// What happened while the templates were loaded and rendered.
#[derive(Debug, Clone)]
pub enum RendererStatus {
    AddTemplateError { path: Option<String>, name: String, error_text: String },
    AddTemplateFileError { path: String, name: String, error_text: String },
    AddTemplateSuccess { path: Option<String>, name: String },
    AddTemplateDirError { path: String, error_text: String },
    AddTemplateDirSuccess { path: String },
    GetTemplateError { template: String, error_text: String },
    RenderContentError { template: String, error_text: String },
    RenderContentSuccess { template: String },
}

pub open spec fn is_error_status(s: RendererStatus) -> bool {
    !(s is AddTemplateSuccess || s is AddTemplateDirSuccess || s is RenderContentSuccess)
}

/// The entries of `log` that are errors, in order.
pub open spec fn errors_of(log: Seq<RendererStatus>) -> Seq<RendererStatus>
    decreases log.len(),
{
    if log.len() == 0 {
        log
    } else if is_error_status(log.last()) {
        errors_of(log.drop_last()).push(log.last())
    } else {
        errors_of(log.drop_last())
    }
}

/// The record of a build's template work.
#[derive(Debug, Clone)]
pub struct RenderLog {
    pub entries: Vec<RendererStatus>,
}

impl RenderLog {
    pub fn new() -> (r: RenderLog)
        ensures
            r.entries@ == Seq::<RendererStatus>::empty(),
    {
        RenderLog { entries: Vec::new() }
    }

    pub fn push(&mut self, s: RendererStatus)
        ensures
            final(self).entries@ == old(self).entries@.push(s),
    {
        self.entries.push(s);
    }

    pub fn errors(&self) -> (r: Vec<&RendererStatus>)
        ensures
            r@.map_values(|e: &RendererStatus| *e) == errors_of(self.entries@),
    {
        let mut r: Vec<&RendererStatus> = Vec::new();
        let n = self.entries.len();
        let mut i: usize = 0;
        while i < n
            invariant
                n == self.entries@.len(),
                i <= n,
                r@.map_values(|e: &RendererStatus| *e) == errors_of(self.entries@.take(i as int)),
            decreases n - i,
        {
            let s = &self.entries[i];
            proof {
                assert(self.entries@.take(i + 1).drop_last() =~= self.entries@.take(i as int));
                assert(self.entries@.take(i + 1).last() == self.entries@[i as int]);
            }
            let err = match s {
                RendererStatus::AddTemplateSuccess { .. } => false,
                RendererStatus::AddTemplateDirSuccess { .. } => false,
                RendererStatus::RenderContentSuccess { .. } => false,
                _ => true,
            };
            let ghost before = r@;
            if err {
                r.push(s);
                proof {
                    assert(r@.map_values(|e: &RendererStatus| *e) =~= before.map_values(
                        |e: &RendererStatus| *e,
                    ).push(*s));
                }
            }
            i = i + 1;
        }
        assert(self.entries@.take(n as int) =~= self.entries@);
        r
    }
}

} // verus!
