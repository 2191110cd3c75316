use vstd::prelude::*;

use super::downloaders::Args;
use super::handlers::{lemma_selected_texts, select_chapters, selected_text, selection_check, selection_fits};
use crate::globals::Globals;
use crate::page::{chapter_jobs, chapter_page, jobs_match, read_chapter_page, ChapterJob, LabelRule, PageError};
use crate::text::{as_strs, texts};

verus! {

/// What to do with a manga page.
pub enum Plan {
    /// List its chapters, in this order.
    List(Vec<String>),
    /// Download these chapters of the manga `title`, out of `total` selected;
    /// `broken` when the chapters stop before the end of the selection, at
    /// one whose chapter number cannot be read.
    Download { title: String, jobs: Vec<ChapterJob>, total: usize, broken: bool },
}

/// Why a manga page cannot be downloaded.
pub enum PlanError {
    /// The page itself cannot be read.
    Page(PageError),
    /// The chapter options do not fit the chapters of the page.
    Selection,
}

/// A downloader for one site: the options of the download, the class of the
/// chapter list, the class of the image container of a chapter page, the
/// pattern that finds the chapter number in a chapter URL, and the referrer
/// that image requests carry.
pub struct Downloader {
    pub args: Args,
    pub chapter_list: String,
    pub get_imgs_class: String,
    pub chapter_url_regex: String,
    pub referrer: String,
    pub g: Globals,
}

/// The directory prefix of the chapters of `title` under `output_dir`.
pub open spec fn chapter_base(output_dir: Seq<char>, title: Seq<char>) -> Seq<char> {
    output_dir + "/"@ + title + "/chapter_"@
}

/// The directory prefix of the chapters of `title` under `output_dir`.
pub fn chapter_base_of(output_dir: &str, title: &str) -> (r: String)
    ensures
        r@ == chapter_base(output_dir@, title@),
{
    let mut b = output_dir.to_owned();
    b.append("/");
    b.append(title);
    b.append("/chapter_");
    b
}

/// Whether `r` is the plan for a manga page under the downloader's settings,
/// with chapter labels read by `rule`.
pub open spec fn plan_fits(
    r: Result<Plan, PlanError>,
    html: Seq<char>,
    class: Seq<char>,
    args: Args,
    pattern: Seq<char>,
    rule: LabelRule,
    output_dir: Seq<char>,
) -> bool {
    match chapter_page(html, class) {
        Err(e) => r matches Err(PlanError::Page(e2)) && e2 == e,
        Ok((t, us)) => if args.list {
            r matches Ok(Plan::List(v)) && v.deep_view() == us
        } else if !selection_fits(us.len(), args) {
            r matches Err(PlanError::Selection)
        } else {
            r matches Ok(Plan::Download { title, jobs, total, broken }) && title@ == t
                && total == selected_text(us, args).len() && jobs_match(
                jobs@,
                pattern,
                rule,
                selected_text(us, args),
                chapter_base(output_dir, t),
                true,
            ) && broken == (jobs@.len() < selected_text(us, args).len())
        },
    }
}

/// Plans the download of a manga page whose chapter labels are read by `rule`.
pub fn plan_download(
    html: &str,
    class: &str,
    args: &Args,
    pattern: &str,
    rule: LabelRule,
    output_dir: &str,
) -> (r: Result<Plan, PlanError>)
    ensures
        plan_fits(r, html@, class@, *args, pattern@, rule, output_dir@),
{
    let (title, urls) = match read_chapter_page(html, class) {
        Ok(p) => p,
        Err(e) => {
            return Err(PlanError::Page(e));
        },
    };
    if args.list {
        return Ok(Plan::List(urls));
    }
    let strs = as_strs(&urls);
    if !selection_check(strs.len(), args) {
        return Err(PlanError::Selection);
    }
    let chosen = select_chapters(strs, args);
    proof {
        lemma_selected_texts(strs@, *args);
    }
    let base = chapter_base_of(output_dir, title.as_str());
    let jobs = chapter_jobs(pattern, rule, &chosen, base.as_str(), true);
    let total = chosen.len();
    let broken = jobs.len() < total;
    Ok(Plan::Download { title, jobs, total, broken })
}

impl Downloader {
    /// A downloader with these settings.
    pub fn new(
        args: Args,
        chapter_list: String,
        get_imgs_class: String,
        chapter_url_regex: String,
        referrer: String,
        g: Globals,
    ) -> (r: Self)
        ensures
            r == (Downloader { args, chapter_list, get_imgs_class, chapter_url_regex, referrer, g }),
    {
        Self {
            args: args,
            chapter_list: chapter_list,
            get_imgs_class: get_imgs_class,
            chapter_url_regex: chapter_url_regex,
            referrer: referrer,
            g: g,
        }
    }

    /// Plans the download of the manga page `html`: list its chapters when
    /// asked to, else select chapters by the options and lay out where each
    /// goes, labelled by its chapter-pattern match without its first character.
    pub fn plan(&self, html: &str) -> (r: Result<Plan, PlanError>)
        ensures
            plan_fits(
                r,
                html@,
                self.chapter_list@,
                self.args,
                self.chapter_url_regex@,
                LabelRule::DropFirst,
                self.g.output_dir@,
            ),
    {
        plan_download(
            html,
            self.chapter_list.as_str(),
            &self.args,
            self.chapter_url_regex.as_str(),
            LabelRule::DropFirst,
            self.g.output_dir.as_str(),
        )
    }

    /// The image sources of a chapter page: for each image container, the
    /// `src` of each of its images; `None` when an image has no `src`.
    pub fn image_sources(&self, html: &str) -> (r: Option<Vec<Vec<String>>>)
        ensures
            match r {
                Some(v) => crate::page::image_sources_spec(html@, self.get_imgs_class@) == Some(
                    v.deep_view(),
                ),
                None => crate::page::image_sources_spec(html@, self.get_imgs_class@) is None,
            },
    {
        crate::page::image_sources(html, self.get_imgs_class.as_str())
    }
}

} // verus!

verus! {

/// Every chapter of a download plan goes to a `chapter_<label>` directory
/// inside the manga's directory under the output directory.
pub proof fn lemma_plan_dirs(
    r: Result<Plan, PlanError>,
    html: Seq<char>,
    class: Seq<char>,
    args: Args,
    pattern: Seq<char>,
    rule: LabelRule,
    output_dir: Seq<char>,
)
    requires
        plan_fits(r, html, class, args, pattern, rule, output_dir),
    ensures
        r matches Ok(Plan::Download { title, jobs, .. }) ==> forall|i: int|
            0 <= i < jobs@.len() ==> (#[trigger] jobs@[i]).path@ == chapter_base(output_dir, title@)
                + jobs@[i].label@,
{
    match r {
        Ok(Plan::Download { title, jobs, total, broken }) => {
            let (t, us) = chapter_page(html, class)->Ok_0;
            assert forall|i: int| 0 <= i < jobs@.len() implies (#[trigger] jobs@[i]).path@
                == chapter_base(output_dir, title@) + jobs@[i].label@ by {
                assert(crate::page::job_fits(
                    jobs@[i],
                    pattern,
                    rule,
                    selected_text(us, args)[i],
                    chapter_base(output_dir, t),
                    true,
                ));
            }
        },
        _ => {},
    }
}

} // verus!
