//! The run configuration, captured once at the top of a run and passed
//! explicitly into flattening and submission, keeping the core free of
//! wall-clock and environment dependencies.

use vstd::prelude::*;

verus! {

/// The configuration of one run: optional run metadata (each supplied value
/// becomes one tag), the destination address and credential, the base name
/// of the emitted series, and the path of the input report.
#[derive(Debug)]
pub struct Args {
    pub project_name: Option<String>,
    pub project_version: Option<String>,
    pub commit_hash: Option<String>,
    pub branch_name: Option<String>,
    pub datadog_site: String,
    pub datadog_api_key: String,
    pub series_name: String,
    pub report: String,
}

/// The tag one present metadata value contributes, or nothing.
pub open spec fn opt_tag(key: Seq<char>, v: Option<String>) -> Seq<Seq<char>> {
    match v {
        Some(s) => seq![key + s@],
        None => Seq::<Seq<char>>::empty(),
    }
}

/// The shared run tag set: one `key:value` tag per supplied metadata value,
/// in fixed order. No metadata supplied means an empty tag set, not an error.
pub open spec fn tags_view(a: Args) -> Seq<Seq<char>> {
    opt_tag("project_name:"@, a.project_name) + opt_tag("project_version:"@, a.project_version)
        + opt_tag("commit_hash:"@, a.commit_hash) + opt_tag("branch_name:"@, a.branch_name)
}

impl Args {
    /// The shared tag set derived from the optional run metadata.
    pub fn tags(&self) -> (r: Vec<String>)
        ensures
            r.deep_view() == tags_view(*self),
    {
        let mut res: Vec<String> = Vec::new();
        if let Some(value) = &self.project_name {
            let mut tag = String::from_str("project_name:");
            tag.append(value.as_str());
            res.push(tag);
        }
        if let Some(value) = &self.project_version {
            let mut tag = String::from_str("project_version:");
            tag.append(value.as_str());
            res.push(tag);
        }
        if let Some(value) = &self.commit_hash {
            let mut tag = String::from_str("commit_hash:");
            tag.append(value.as_str());
            res.push(tag);
        }
        if let Some(value) = &self.branch_name {
            let mut tag = String::from_str("branch_name:");
            tag.append(value.as_str());
            res.push(tag);
        }
        proof {
            assert(res.deep_view() =~~= tags_view(*self));
        }
        res
    }
}

} // verus!
