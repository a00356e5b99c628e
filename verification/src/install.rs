//! Installing a downloadable resource: the steps taken, and the progress
//! events reported to the front end on the way.
use vstd::prelude::*;

use crate::text::{push_all, str_chars, string_from_chars};

verus! {

/// A progress event of an installation (`resource-download`).
pub struct ProgressEvent {
    /// `installed`, `downloading`, `download-done`, `extracting`, `done` or
    /// `error`.
    pub step: String,
    /// Percentage, when the step has one.
    pub percent: Option<u32>,
    /// Bytes handled so far.
    pub processed: Option<u64>,
    pub total: Option<u64>,
    /// Error text.
    pub message: Option<String>,
}

pub open spec fn event_is(e: ProgressEvent, step: Seq<char>, percent: Option<u32>, processed: Option<u64>) -> bool {
    e.step@ == step && e.percent == percent && e.processed == processed && e.total is None && e.message is None
}

pub open spec fn error_event(e: ProgressEvent, message: Seq<char>) -> bool {
    e.step@ == "error"@ && e.percent is None && e.processed is None && e.total is None
        && (e.message matches Some(m) && m@ == message)
}

fn event(step: &str, percent: Option<u32>, processed: Option<u64>) -> (r: ProgressEvent)
    ensures
        event_is(r, step@, percent, processed),
{
    ProgressEvent { step: step.to_string(), percent, processed, total: None, message: None }
}

fn error(message: String) -> (r: ProgressEvent)
    ensures
        error_event(r, message@),
{
    ProgressEvent { step: "error".to_string(), percent: None, processed: None, total: None, message: Some(message) }
}

/// Where an installation stands.
#[derive(Clone, Copy, PartialEq, Eq, Structural)]
pub enum InstallStage {
    /// Checking whether the resource is there already.
    Checking,
    /// Downloading the archive.
    Downloading,
    /// Making room for and unpacking the archive.
    Unpacking,
    /// Checking what was unpacked.
    Verifying,
    /// Recording the resource in the index.
    Recording,
}

/// What the outside work of a stage came back with.
pub enum InstallEvent {
    /// Whether the resource is installed already.
    Checked(bool),
    /// The archive was downloaded, or why not.
    Downloaded(Result<(), String>),
    /// The target directory could not be made (its error), or the archive's
    /// unpacking succeeded or failed.
    DirFailed(String),
    Unpacked(Result<(), String>),
    /// Whether the unpacked resource is valid.
    Verified(bool),
    /// The index was written.
    Recorded,
}

/// The events to report, and the stage that follows (none when the
/// installation is over).
pub struct InstallStep {
    pub events: Vec<ProgressEvent>,
    pub next: Option<InstallStage>,
}

/// The message of a resource that fails its check after unpacking.
pub open spec fn verify_message(kind_name: Seq<char>, name: Seq<char>) -> Seq<char> {
    "资源解压后校验失败: type="@ + kind_name + " name="@ + name
}

/// Decides the next step of an installation: an installed resource is
/// reported as such; otherwise it is downloaded (reported from 0 %),
/// unpacked (after `download-done` at 100 % and `extracting`), checked and
/// recorded, then reported `done` at 100 %; any failure is reported as an
/// error and ends the installation.
pub fn install_step(kind_name: &str, name: &str, stage: InstallStage, ev: InstallEvent) -> (r: InstallStep)
    ensures
        match (stage, ev) {
            (InstallStage::Checking, InstallEvent::Checked(true)) => r.next is None && r.events@.len() == 1
                && event_is(r.events@[0], "installed"@, Some(100), None),
            (InstallStage::Checking, InstallEvent::Checked(false)) => r.next == Some(InstallStage::Downloading)
                && r.events@.len() == 1 && event_is(r.events@[0], "downloading"@, Some(0), Some(0)),
            (InstallStage::Downloading, InstallEvent::Downloaded(Ok(()))) => r.next == Some(InstallStage::Unpacking)
                && r.events@.len() == 2 && event_is(r.events@[0], "download-done"@, Some(100), None)
                && event_is(r.events@[1], "extracting"@, None, None),
            (InstallStage::Downloading, InstallEvent::Downloaded(Err(m))) => r.next is None
                && r.events@.len() == 1 && error_event(r.events@[0], m@),
            (InstallStage::Unpacking, InstallEvent::DirFailed(e)) => r.next is None
                && r.events@.len() == 1 && error_event(r.events@[0], "创建资源目录失败: "@ + e@),
            (InstallStage::Unpacking, InstallEvent::Unpacked(Ok(()))) => r.next == Some(InstallStage::Verifying)
                && r.events@.len() == 0,
            (InstallStage::Unpacking, InstallEvent::Unpacked(Err(m))) => r.next is None
                && r.events@.len() == 1 && error_event(r.events@[0], m@),
            (InstallStage::Verifying, InstallEvent::Verified(true)) => r.next == Some(InstallStage::Recording)
                && r.events@.len() == 0,
            (InstallStage::Verifying, InstallEvent::Verified(false)) => r.next is None
                && r.events@.len() == 1 && error_event(r.events@[0], verify_message(kind_name@, name@)),
            (InstallStage::Recording, InstallEvent::Recorded) => r.next is None
                && r.events@.len() == 1 && event_is(r.events@[0], "done"@, Some(100), None),
            _ => r.next is None && r.events@.len() == 0,
        },
{
    let mut events: Vec<ProgressEvent> = Vec::new();
    match (stage, ev) {
        (InstallStage::Checking, InstallEvent::Checked(true)) => {
            events.push(event("installed", Some(100), None));
            InstallStep { events, next: None }
        },
        (InstallStage::Checking, InstallEvent::Checked(false)) => {
            events.push(event("downloading", Some(0), Some(0)));
            InstallStep { events, next: Some(InstallStage::Downloading) }
        },
        (InstallStage::Downloading, InstallEvent::Downloaded(Ok(()))) => {
            events.push(event("download-done", Some(100), None));
            events.push(event("extracting", None, None));
            InstallStep { events, next: Some(InstallStage::Unpacking) }
        },
        (InstallStage::Downloading, InstallEvent::Downloaded(Err(m))) => {
            events.push(error(m));
            InstallStep { events, next: None }
        },
        (InstallStage::Unpacking, InstallEvent::DirFailed(e)) => {
            let mut v = str_chars("创建资源目录失败: ");
            push_all(&mut v, str_chars(e.as_str()).as_slice());
            events.push(error(string_from_chars(v.as_slice())));
            InstallStep { events, next: None }
        },
        (InstallStage::Unpacking, InstallEvent::Unpacked(Ok(()))) => {
            InstallStep { events, next: Some(InstallStage::Verifying) }
        },
        (InstallStage::Unpacking, InstallEvent::Unpacked(Err(m))) => {
            events.push(error(m));
            InstallStep { events, next: None }
        },
        (InstallStage::Verifying, InstallEvent::Verified(true)) => {
            InstallStep { events, next: Some(InstallStage::Recording) }
        },
        (InstallStage::Verifying, InstallEvent::Verified(false)) => {
            let mut v = str_chars("资源解压后校验失败: type=");
            push_all(&mut v, str_chars(kind_name).as_slice());
            push_all(&mut v, str_chars(" name=").as_slice());
            push_all(&mut v, str_chars(name).as_slice());
            events.push(error(string_from_chars(v.as_slice())));
            InstallStep { events, next: None }
        },
        (InstallStage::Recording, InstallEvent::Recorded) => {
            events.push(event("done", Some(100), None));
            InstallStep { events, next: None }
        },
        _ => InstallStep { events, next: None },
    }
}

} // verus!
