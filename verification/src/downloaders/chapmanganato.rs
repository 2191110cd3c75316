use vstd::prelude::*;

use super::downloader::{plan_download, plan_fits, Plan, PlanError};
use super::downloaders::Args;
use crate::globals::Globals;
use crate::page::{image_sources_spec, LabelRule};
use crate::text::{nth_part, split_on};

verus! {

/// Plans the download of a chapmanganato manga page: its chapters are listed
/// in the `row-content-chapter` element, and a chapter is labelled by the
/// text that `-([0-9]+\.?[0-9]?)` matches in its URL, without any `-`.
pub fn chapmanganato(args: &Args, g: &Globals, html: &str) -> (r: Result<Plan, PlanError>)
    ensures
        plan_fits(
            r,
            html@,
            "row-content-chapter"@,
            *args,
            "-([0-9]+\\.?[0-9]?)"@,
            LabelRule::RemoveDashes,
            g.output_dir@,
        ),
{
    plan_download(
        html,
        "row-content-chapter",
        args,
        "-([0-9]+\\.?[0-9]?)",
        LabelRule::RemoveDashes,
        g.output_dir.as_str(),
    )
}

/// The image sources of a chapmanganato chapter page: the `src` of each image
/// of each `container-chapter-reader` element.
pub fn chapmanganato_get_imgs(html: &str) -> (r: Option<Vec<Vec<String>>>)
    ensures
        match r {
            Some(v) => image_sources_spec(html@, "container-chapter-reader"@) == Some(v.deep_view()),
            None => image_sources_spec(html@, "container-chapter-reader"@) is None,
        },
{
    crate::page::image_sources(html, "container-chapter-reader")
}

/// The name under which a finished chapmanganato chapter is reported: the
/// `/`-part number 5 of its URL, when it has one.
pub fn finished_chapter_name(url: &str) -> (r: Option<String>)
    ensures
        match r {
            Some(p) => 5 < split_on(url@, '/').len() && p@ == split_on(url@, '/')[5],
            None => 5 >= split_on(url@, '/').len(),
        },
{
    nth_part(url, '/', 5)
}

} // verus!
