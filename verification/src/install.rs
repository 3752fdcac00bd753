//! Installing a package from a list of mirrors, one mirror after the other.
//!
//! The rules are a state machine. It is told how each step ended and answers
//! with the next thing to do; the caller does the fetching and downloading.
//! A mirror is tried once: when its index cannot be had, when it does not
//! hold the package, or when the download from it fails, the next mirror has
//! its turn. The first download that succeeds ends the installation, and
//! with no mirror left the installation has failed.

use crate::config::InstallConfig;
use crate::http::HttpOutcome;
use crate::package::downloader::{DownloadTask, TaskView};
use crate::package::package_info::{any_present, component_text, index_url_texts};
use crate::text::strings_view;
use crate::utils::url::{
    fixed_tasks, is_fixed_family, planned_task, tasks_view, MirrorStep, UrlBuilder,
};
use vstd::prelude::*;

verus! {

/// What the attempt at one mirror is waiting for.
#[derive(Debug, Clone, Copy)]
pub enum Stage {
    /// The index of the mirror is being fetched.
    FetchingIndex,
    /// An artifact, or a batch of them, is being downloaded.
    Downloading,
}

/// How far an installation has come.
#[derive(Debug, Clone, Copy)]
pub enum InstallState {
    /// The mirror at place `mirror` of the list is being tried.
    Trying { mirror: usize, stage: Stage },
    /// The download from the mirror at place `mirror` succeeded.
    Succeeded { mirror: usize },
    /// Every mirror was tried and none gave the package.
    ExhaustedMirrors,
}

/// How the step that the caller was asked to do ended.
#[derive(Debug, Clone)]
pub enum InstallEvent {
    /// The requests for the index of the mirror ended in these ways, in the
    /// order of the addresses that were given.
    IndexFetched { outcomes: Vec<HttpOutcome> },
    /// The download, or the batch of downloads, ended.
    DownloadFinished { success: bool },
}

/// What the caller is to do next.
#[derive(Debug, Clone)]
pub enum InstallAction {
    /// Fetch the index of `mirror`: one request for each address, in order.
    FetchIndex { mirror: String, urls: Vec<String> },
    /// Download one artifact and check its digest.
    Download { task: DownloadTask },
    /// Download these artifacts together, each checked on its own.
    DownloadBatch { tasks: Vec<DownloadTask> },
    /// Nothing more: the installation has ended.
    Finished { success: bool },
}

/// What an action says, as plain values.
pub enum ActionView {
    FetchIndex { mirror: Seq<char>, urls: Seq<Seq<char>> },
    Download { task: TaskView },
    DownloadBatch { tasks: Seq<TaskView> },
    Finished { success: bool },
}

impl View for InstallAction {
    type V = ActionView;

    open spec fn view(&self) -> ActionView {
        match *self {
            InstallAction::FetchIndex { mirror, urls } => ActionView::FetchIndex {
                mirror: mirror@,
                urls: strings_view(urls@),
            },
            InstallAction::Download { task } => ActionView::Download { task: task@ },
            InstallAction::DownloadBatch { tasks } => ActionView::DownloadBatch {
                tasks: tasks_view(tasks@),
            },
            InstallAction::Finished { success } => ActionView::Finished { success },
        }
    }
}

/// The stage in which the attempt at a mirror begins: a package of the family
/// with fixed addresses is downloaded at once, any other needs the index.
pub open spec fn first_stage(config: InstallConfig) -> Stage {
    if is_fixed_family(config.package_name@) {
        Stage::Downloading
    } else {
        Stage::FetchingIndex
    }
}

/// The state in which the mirror at place `mirror` has its turn: it is tried,
/// or, where the list has no such place, the mirrors are exhausted.
pub open spec fn attempt_state(config: InstallConfig, mirror: int) -> InstallState {
    if 0 <= mirror < config.mirrors@.len() {
        InstallState::Trying { mirror: mirror as usize, stage: first_stage(config) }
    } else {
        InstallState::ExhaustedMirrors
    }
}

/// The action with which the mirror at place `mirror` has its turn.
pub open spec fn attempt_action(config: InstallConfig, mirror: int) -> ActionView {
    if 0 <= mirror < config.mirrors@.len() {
        if is_fixed_family(config.package_name@) {
            ActionView::DownloadBatch { tasks: fixed_tasks(config.root_dir@) }
        } else {
            ActionView::FetchIndex {
                mirror: config.mirrors@[mirror]@,
                urls: index_url_texts(config.mirrors@[mirror]@, config.architecture@),
            }
        }
    } else {
        ActionView::Finished { success: false }
    }
}

/// The download that the answers of the mirror at place `mirror` give for the
/// request.
pub open spec fn mirror_task(config: InstallConfig, mirror: int, outcomes: Seq<HttpOutcome>) -> Option<
    TaskView,
> {
    planned_task(
        config.package_name@,
        config.architecture@,
        config.root_dir@,
        config.mirrors@[mirror]@,
        outcomes,
    )
}

/// The state that follows `state` when `event` is reported.
pub open spec fn next_state(config: InstallConfig, state: InstallState, event: InstallEvent) -> InstallState {
    match state {
        InstallState::Trying { mirror, stage } => {
            if mirror >= config.mirrors@.len() {
                InstallState::ExhaustedMirrors
            } else {
                match (stage, event) {
                    (Stage::FetchingIndex, InstallEvent::IndexFetched { outcomes }) => {
                        if mirror_task(config, mirror as int, outcomes@) is Some {
                            InstallState::Trying { mirror, stage: Stage::Downloading }
                        } else {
                            attempt_state(config, mirror + 1)
                        }
                    },
                    (Stage::Downloading, InstallEvent::DownloadFinished { success }) => {
                        if success {
                            InstallState::Succeeded { mirror }
                        } else {
                            attempt_state(config, mirror + 1)
                        }
                    },
                    _ => attempt_state(config, mirror + 1),
                }
            }
        },
        InstallState::Succeeded { mirror } => state,
        InstallState::ExhaustedMirrors => state,
    }
}

/// The action that is asked for when `event` is reported in `state`.
pub open spec fn next_action(config: InstallConfig, state: InstallState, event: InstallEvent) -> ActionView {
    match state {
        InstallState::Trying { mirror, stage } => {
            if mirror >= config.mirrors@.len() {
                ActionView::Finished { success: false }
            } else {
                match (stage, event) {
                    (Stage::FetchingIndex, InstallEvent::IndexFetched { outcomes }) => {
                        match mirror_task(config, mirror as int, outcomes@) {
                            Some(task) => ActionView::Download { task },
                            None => attempt_action(config, mirror + 1),
                        }
                    },
                    (Stage::Downloading, InstallEvent::DownloadFinished { success }) => {
                        if success {
                            ActionView::Finished { success: true }
                        } else {
                            attempt_action(config, mirror + 1)
                        }
                    },
                    _ => attempt_action(config, mirror + 1),
                }
            }
        },
        InstallState::Succeeded { mirror } => ActionView::Finished { success: true },
        InstallState::ExhaustedMirrors => ActionView::Finished { success: false },
    }
}

/// Gives the mirror at place `mirror` its turn.
fn attempt(config: &InstallConfig, mirror: usize) -> (turn: (InstallState, InstallAction))
    ensures
        turn.0 == attempt_state(*config, mirror as int),
        turn.1@ == attempt_action(*config, mirror as int),
{
    if mirror < config.mirrors.len() {
        let base = &config.mirrors[mirror];
        match UrlBuilder::first_step(config, base.as_str()) {
            MirrorStep::Batch { tasks } => (
                InstallState::Trying { mirror, stage: Stage::Downloading },
                InstallAction::DownloadBatch { tasks },
            ),
            MirrorStep::FetchIndex { urls } => (
                InstallState::Trying { mirror, stage: Stage::FetchingIndex },
                InstallAction::FetchIndex { mirror: base.clone(), urls },
            ),
        }
    } else {
        (InstallState::ExhaustedMirrors, InstallAction::Finished { success: false })
    }
}

/// Begins an installation: the first mirror has its turn. With an empty list
/// of mirrors the installation has failed at once.
pub fn install_start(config: &InstallConfig) -> (turn: (InstallState, InstallAction))
    ensures
        turn.0 == attempt_state(*config, 0),
        turn.1@ == attempt_action(*config, 0),
{
    attempt(config, 0)
}

/// Takes the report of how a step ended and says what follows: the next
/// state and the next thing to do.
pub fn install_step(config: &InstallConfig, state: InstallState, event: InstallEvent) -> (turn: (
    InstallState,
    InstallAction,
))
    ensures
        turn.0 == next_state(*config, state, event),
        turn.1@ == next_action(*config, state, event),
{
    match state {
        InstallState::Trying { mirror, stage } => {
            if mirror >= config.mirrors.len() {
                return (InstallState::ExhaustedMirrors, InstallAction::Finished { success: false });
            }
            match (stage, event) {
                (Stage::FetchingIndex, InstallEvent::IndexFetched { outcomes }) => {
                    let base = &config.mirrors[mirror];
                    match UrlBuilder::plan_download(config, base.as_str(), &outcomes) {
                        Ok(task) => (
                            InstallState::Trying { mirror, stage: Stage::Downloading },
                            InstallAction::Download { task },
                        ),
                        Err(_) => attempt(config, mirror + 1),
                    }
                },
                (Stage::Downloading, InstallEvent::DownloadFinished { success }) => {
                    if success {
                        (InstallState::Succeeded { mirror }, InstallAction::Finished { success: true })
                    } else {
                        attempt(config, mirror + 1)
                    }
                },
                _ => attempt(config, mirror + 1),
            }
        },
        InstallState::Succeeded { mirror } => (state, InstallAction::Finished { success: true }),
        InstallState::ExhaustedMirrors => (state, InstallAction::Finished { success: false }),
    }
}

/// Whether a state is one that the installation of `config` can be in: a
/// mirror that is tried, or that succeeded, has a place in the list.
pub open spec fn is_state_of(config: InstallConfig, state: InstallState) -> bool {
    match state {
        InstallState::Trying { mirror, stage } => mirror < config.mirrors@.len(),
        InstallState::Succeeded { mirror } => mirror < config.mirrors@.len(),
        InstallState::ExhaustedMirrors => true,
    }
}

/// How far a state is along the way of an installation: two steps for each
/// mirror, and the end after the last of them.
pub open spec fn progress(config: InstallConfig, state: InstallState) -> int {
    match state {
        InstallState::Trying { mirror, stage } => match stage {
            Stage::FetchingIndex => 2 * mirror,
            Stage::Downloading => 2 * mirror + 1,
        },
        InstallState::Succeeded { mirror } => 2 * (config.mirrors@.len() as int),
        InstallState::ExhaustedMirrors => 2 * (config.mirrors@.len() as int),
    }
}

/// An installation begins in a state of its own, and every step leads to
/// one.
pub proof fn law_states_stay_valid(config: InstallConfig, state: InstallState, event: InstallEvent)
    requires
        is_state_of(config, state),
    ensures
        is_state_of(config, attempt_state(config, 0)),
        is_state_of(config, next_state(config, state, event)),
{
}

/// An installation only moves forward: while a mirror is being tried every
/// report leads to a later stage of that mirror, to a later mirror or to the
/// end. No stage of a mirror is entered twice, so an installation over a list
/// of mirrors ends after two reports for each mirror at most.
pub proof fn law_steps_move_forward(config: InstallConfig, state: InstallState, event: InstallEvent)
    requires
        is_state_of(config, state),
    ensures
        state is Trying ==> progress(config, state) < progress(
            config,
            next_state(config, state, event),
        ),
        progress(config, next_state(config, state, event)) <= 2 * config.mirrors@.len(),
{
    assert(config.mirrors.len() == config.mirrors@.len());
}

/// The state of an installation after a list of reports, from its beginning.
pub open spec fn state_after(config: InstallConfig, events: Seq<InstallEvent>) -> InstallState
    decreases events.len(),
{
    if events.len() == 0 {
        attempt_state(config, 0)
    } else {
        next_state(config, state_after(config, events.drop_last()), events.last())
    }
}

/// Every installation ends: after two reports for each mirror of the list it
/// has succeeded or has exhausted the mirrors, whatever was reported.
pub proof fn law_installation_ends(config: InstallConfig, events: Seq<InstallEvent>)
    ensures
        is_state_of(config, state_after(config, events)),
        state_after(config, events) is Trying ==> events.len() <= progress(
            config,
            state_after(config, events),
        ),
        events.len() >= 2 * config.mirrors@.len() ==> !(state_after(config, events) is Trying),
    decreases events.len(),
{
    assert(config.mirrors.len() == config.mirrors@.len());
    if events.len() > 0 {
        let before = state_after(config, events.drop_last());
        law_installation_ends(config, events.drop_last());
        law_states_stay_valid(config, before, events.last());
        law_steps_move_forward(config, before, events.last());
    }
}

/// An installation that has ended stays as it ended, whatever is reported:
/// nothing more is asked for, and no further mirror is tried.
pub proof fn law_end_is_final(config: InstallConfig, state: InstallState, event: InstallEvent)
    requires
        !(state is Trying),
    ensures
        next_state(config, state, event) == state,
        next_action(config, state, event) == (ActionView::Finished {
            success: state is Succeeded,
        }),
{
}

/// An installation succeeds only by a download that succeeded, and at the
/// mirror that was being tried.
pub proof fn law_success_comes_from_a_download(
    config: InstallConfig,
    state: InstallState,
    event: InstallEvent,
)
    requires
        state is Trying,
        next_state(config, state, event) is Succeeded,
    ensures
        state->Trying_stage is Downloading,
        event == (InstallEvent::DownloadFinished { success: true }),
        next_state(config, state, event)->Succeeded_mirror == state->Trying_mirror,
{
}

/// Whatever fails at a mirror gives the next mirror its turn, and with no
/// mirror left the installation has failed: an index of which no component
/// was had, an index without the package, and a download that failed.
pub proof fn law_failure_moves_to_the_next_mirror(
    config: InstallConfig,
    mirror: usize,
    stage: Stage,
    event: InstallEvent,
)
    requires
        mirror < config.mirrors@.len(),
        match (stage, event) {
            (Stage::FetchingIndex, InstallEvent::IndexFetched { outcomes }) => mirror_task(
                config,
                mirror as int,
                outcomes@,
            ) is None,
            (Stage::Downloading, InstallEvent::DownloadFinished { success }) => !success,
            _ => true,
        },
    ensures
        next_state(config, InstallState::Trying { mirror, stage }, event) == attempt_state(
            config,
            mirror + 1,
        ),
        next_action(config, InstallState::Trying { mirror, stage }, event) == attempt_action(
            config,
            mirror + 1,
        ),
        mirror + 1 == config.mirrors@.len() ==> attempt_state(config, mirror + 1)
            is ExhaustedMirrors,
{
}

/// An index of which no component was had gives no download.
pub proof fn law_no_index_no_download(config: InstallConfig, mirror: int, outcomes: Seq<HttpOutcome>)
    requires
        !any_present(outcomes.map_values(|o: HttpOutcome| component_text(o))),
    ensures
        mirror_task(config, mirror, outcomes) is None,
{
}

/// With two mirrors or more, where the index of the first mirror cannot be
/// had and the second mirror holds the package, the installation turns to the
/// second mirror, downloads the artifact that the second mirror's index
/// names, and, when that download succeeds, ends in success at the second
/// mirror. It tries no third mirror: every later report leaves it as it is.
pub proof fn law_second_mirror_takes_over(
    config: InstallConfig,
    first: Vec<HttpOutcome>,
    second: Vec<HttpOutcome>,
    later: InstallEvent,
)
    requires
        config.mirrors@.len() >= 2,
        !is_fixed_family(config.package_name@),
        mirror_task(config, 0, first@) is None,
        mirror_task(config, 1, second@) is Some,
    ensures
        ({
            let s0 = attempt_state(config, 0);
            let s1 = attempt_state(config, 1);
            let fetched = InstallEvent::IndexFetched { outcomes: second };
            let s2 = next_state(config, s1, fetched);
            let done = InstallEvent::DownloadFinished { success: true };
            let s3 = next_state(config, s2, done);
            &&& s0 == (InstallState::Trying { mirror: 0, stage: Stage::FetchingIndex })
            &&& next_state(config, s0, InstallEvent::IndexFetched { outcomes: first }) == s1
            &&& next_action(config, s0, InstallEvent::IndexFetched { outcomes: first })
                == attempt_action(config, 1)
            &&& s1 == (InstallState::Trying { mirror: 1, stage: Stage::FetchingIndex })
            &&& s2 == (InstallState::Trying { mirror: 1, stage: Stage::Downloading })
            &&& next_action(config, s1, fetched) == (ActionView::Download {
                task: mirror_task(config, 1, second@)->0,
            })
            &&& s3 == (InstallState::Succeeded { mirror: 1 })
            &&& next_action(config, s2, done) == (ActionView::Finished { success: true })
            &&& next_state(config, s3, later) == s3
            &&& next_action(config, s3, later) == (ActionView::Finished { success: true })
        }),
{
}

} // verus!
