//! What to fetch for a request from one mirror.

use crate::config::InstallConfig;
use crate::error::AptError;
use crate::http::HttpOutcome;
use crate::package::downloader::{DownloadTask, TaskView};
use crate::package::package_info::{
    any_present, assemble_index, component_text, find_package, index_url_texts, index_urls,
    joined_text, parse_packages_file, parse_text,
};
use crate::text::{starts_with, strings_view};
use vstd::prelude::*;
use vstd::string::StringExecFns;

verus! {

/// Builds the addresses and download tasks of a request.
pub struct UrlBuilder;

/// The first thing to do for a request at a mirror.
#[derive(Debug, Clone)]
pub enum MirrorStep {
    /// Download these artifacts as one batch: the package is of a family with
    /// fixed addresses and no index is needed.
    Batch { tasks: Vec<DownloadTask> },
    /// Fetch the index of the mirror: one request for each address, in order.
    FetchIndex { urls: Vec<String> },
}

/// Whether a package is of the family whose artifacts have fixed addresses.
pub open spec fn is_fixed_family(package_name: Seq<char>) -> bool {
    "android-ndk"@.is_prefix_of(package_name)
}

/// The tasks for the family of packages with fixed addresses. No digest is
/// known for those artifacts; a placeholder stands in its place.
pub open spec fn fixed_tasks(root_dir: Seq<char>) -> Seq<TaskView> {
    seq![
        TaskView {
            url: "https://dl.google.com/android/repository/android-ndk-r26b-darwin.dmg"@,
            root_dir,
            expected_md5: "dummy"@,
        },
        TaskView {
            url: "https://dl.google.com/android/repository/android-ndk-r26b-darwin.zip"@,
            root_dir,
            expected_md5: "dummy"@,
        },
    ]
}

/// The views of a list of tasks.
pub open spec fn tasks_view(tasks: Seq<DownloadTask>) -> Seq<TaskView> {
    tasks.map_values(|task: DownloadTask| task@)
}

/// The address of an artifact at a mirror: the mirror's base address, a
/// slash, and the path that the record gives, as it stands.
pub open spec fn artifact_url_text(mirror: Seq<char>, filename: Seq<char>) -> Seq<char> {
    mirror + "/"@ + filename
}

/// The download that the text of an index gives for a package and an
/// architecture at a mirror, if the index holds the package for that
/// architecture.
pub open spec fn resolved_task(
    name: Seq<char>,
    arch: Seq<char>,
    root_dir: Seq<char>,
    mirror: Seq<char>,
    text: Seq<char>,
) -> Option<TaskView> {
    let index = parse_text(text);
    if index.contains_key(name) && index[name].architecture == arch {
        Some(
            TaskView {
                url: artifact_url_text(mirror, index[name].filename),
                root_dir,
                expected_md5: index[name].md5sum,
            },
        )
    } else {
        None
    }
}

/// The download that the answers of a mirror give for a package and an
/// architecture: the one that the text of its index gives, where at least one
/// component of the index was had.
pub open spec fn planned_task(
    name: Seq<char>,
    arch: Seq<char>,
    root_dir: Seq<char>,
    mirror: Seq<char>,
    outcomes: Seq<HttpOutcome>,
) -> Option<TaskView> {
    let texts = outcomes.map_values(|o: HttpOutcome| component_text(o));
    if any_present(texts) {
        resolved_task(name, arch, root_dir, mirror, joined_text(texts))
    } else {
        None
    }
}

impl UrlBuilder {
    /// Whether a package is of the family whose artifacts have fixed
    /// addresses.
    pub fn is_fixed_package(package_name: &str) -> (fixed: bool)
        ensures
            fixed == is_fixed_family(package_name@),
    {
        starts_with(package_name, "android-ndk")
    }

    /// The tasks for the family of packages with fixed addresses.
    pub fn fixed_downloads(root_dir: &str) -> (tasks: Vec<DownloadTask>)
        ensures
            tasks_view(tasks@) == fixed_tasks(root_dir@),
    {
        let mut tasks: Vec<DownloadTask> = Vec::new();
        tasks.push(
            DownloadTask {
                url: "https://dl.google.com/android/repository/android-ndk-r26b-darwin.dmg"
                    .to_owned(),
                root_dir: root_dir.to_owned(),
                expected_md5: "dummy".to_owned(),
            },
        );
        tasks.push(
            DownloadTask {
                url: "https://dl.google.com/android/repository/android-ndk-r26b-darwin.zip"
                    .to_owned(),
                root_dir: root_dir.to_owned(),
                expected_md5: "dummy".to_owned(),
            },
        );
        assert(tasks_view(tasks@) =~= fixed_tasks(root_dir@));
        tasks
    }

    /// The address of an artifact at a mirror.
    pub fn artifact_url(mirror: &str, filename: &str) -> (url: String)
        ensures
            url@ == artifact_url_text(mirror@, filename@),
    {
        let mut url = mirror.to_owned();
        url.append("/");
        url.append(filename);
        url
    }

    /// The first thing to do for a request at a mirror: a batch of fixed
    /// downloads for a package of the fixed family, the fetch of the index
    /// for any other.
    pub fn first_step(config: &InstallConfig, mirror: &str) -> (step: MirrorStep)
        ensures
            match step {
                MirrorStep::Batch { tasks } => is_fixed_family(config.package_name@) && tasks_view(
                    tasks@,
                ) == fixed_tasks(config.root_dir@),
                MirrorStep::FetchIndex { urls } => !is_fixed_family(config.package_name@)
                    && strings_view(urls@) == index_url_texts(mirror@, config.architecture@),
            },
    {
        if Self::is_fixed_package(config.package_name.as_str()) {
            MirrorStep::Batch { tasks: Self::fixed_downloads(config.root_dir.as_str()) }
        } else {
            MirrorStep::FetchIndex { urls: index_urls(mirror, config.architecture.as_str()) }
        }
    }

    /// The download for a request at a mirror, from the text of the mirror's
    /// index. Where the index holds no record of the package for the
    /// architecture, the package is not found at this mirror.
    pub fn resolve_download(config: &InstallConfig, mirror: &str, index_text: &str) -> (task: Result<
        DownloadTask,
        AptError,
    >)
        ensures
            match task {
                Ok(found) => resolved_task(
                    config.package_name@,
                    config.architecture@,
                    config.root_dir@,
                    mirror@,
                    index_text@,
                ) == Some(found@),
                Err(error) => error is PackageNotFound && resolved_task(
                    config.package_name@,
                    config.architecture@,
                    config.root_dir@,
                    mirror@,
                    index_text@,
                ) is None,
            },
    {
        let packages = parse_packages_file(index_text);
        match find_package(
            &packages,
            config.package_name.as_str(),
            config.architecture.as_str(),
        ) {
            Some(info) => Ok(
                DownloadTask {
                    url: Self::artifact_url(mirror, info.filename.as_str()),
                    root_dir: config.root_dir.clone(),
                    expected_md5: info.md5sum.clone(),
                },
            ),
            None => Err(AptError::PackageNotFound),
        }
    }

    /// The download for a request at a mirror, from the way the requests for
    /// the components of the mirror's index ended. Where no component was
    /// had, the index is unavailable; where the index holds no record of the
    /// package for the architecture, the package is not found.
    pub fn plan_download(config: &InstallConfig, mirror: &str, outcomes: &Vec<HttpOutcome>) -> (task:
        Result<DownloadTask, AptError>)
        ensures
            match task {
                Ok(found) => planned_task(
                    config.package_name@,
                    config.architecture@,
                    config.root_dir@,
                    mirror@,
                    outcomes@,
                ) == Some(found@),
                Err(error) => planned_task(
                    config.package_name@,
                    config.architecture@,
                    config.root_dir@,
                    mirror@,
                    outcomes@,
                ) is None && if any_present(
                    outcomes@.map_values(|o: HttpOutcome| component_text(o)),
                ) {
                    error is PackageNotFound
                } else {
                    error is IndexUnavailable
                },
            },
    {
        match assemble_index(outcomes) {
            Ok(text) => Self::resolve_download(config, mirror, text.as_str()),
            Err(error) => Err(error),
        }
    }
}

/// A name that the index holds only for another architecture gives no
/// download, and neither does a name that the index does not hold.
pub proof fn law_other_architecture_is_not_resolved(
    name: Seq<char>,
    arch: Seq<char>,
    root_dir: Seq<char>,
    mirror: Seq<char>,
    text: Seq<char>,
)
    requires
        !parse_text(text).contains_key(name) || parse_text(text)[name].architecture != arch,
    ensures
        resolved_task(name, arch, root_dir, mirror, text) is None,
{
}

} // verus!
