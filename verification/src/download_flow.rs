use vstd::prelude::*;
use vstd::string::StringExecFns;
use crate::assets::extracted_folder_missing_message;

verus! {

/// Where the download of an asset stands.
#[derive(Clone, Copy, Debug, PartialEq, Eq, Structural)]
pub enum DownloadStage {
    /// Nothing has been done yet.
    Start,
    /// The target is being looked for.
    Checking,
    /// An archive left by an earlier download is being removed.
    Clearing,
    /// The asset is being downloaded.
    Downloading,
    /// The downloaded archive is being extracted.
    Extracting,
    /// The extracted folder is being looked for.
    CheckingFolder,
    /// The extracted archive is being removed.
    Removing,
    /// The download is over.
    Done,
}

/// What happened in a download.
#[derive(Debug)]
pub enum DownloadEvent {
    /// The download begins.
    Begin,
    /// The target was looked for: whether it is there, and whether an
    /// archive of an earlier download lies where this one goes.
    Checked { present: bool, stale_archive: bool },
    /// The earlier archive was removed.
    Cleared,
    /// The asset was downloaded in full.
    Downloaded,
    /// The archive was extracted.
    Extracted,
    /// The extracted folder was looked for: whether it is there.
    FolderChecked(bool),
    /// The extracted archive was removed.
    Removed,
    /// The step under way failed with this message.
    StepFailed(String),
}

/// What the caller does next.
#[derive(Debug)]
pub enum DownloadAction {
    /// Nothing: the event does not belong to this stage.
    Wait,
    /// Make sure the target's directory exists and look for the target.
    CheckTarget,
    /// Remove the archive of an earlier download.
    ClearArchive,
    /// Download the asset.
    Download,
    /// Extract the downloaded archive.
    Extract,
    /// Look for the folder the archive should have given.
    CheckFolder,
    /// Remove the extracted archive.
    RemoveArchive,
    /// The asset is in place.
    Complete,
    /// The download failed with this message.
    Fail(String),
}

/// An event as plain values.
pub enum DownloadEventView {
    Begin,
    Checked(bool, bool),
    Cleared,
    Downloaded,
    Extracted,
    FolderChecked(bool),
    Removed,
    StepFailed(Seq<char>),
}

/// An action as plain values.
pub enum DownloadActionView {
    Wait,
    CheckTarget,
    ClearArchive,
    Download,
    Extract,
    CheckFolder,
    RemoveArchive,
    Complete,
    Fail(Seq<char>),
}

/// The plain values of an event.
pub open spec fn download_event_view(e: DownloadEvent) -> DownloadEventView {
    match e {
        DownloadEvent::Begin => DownloadEventView::Begin,
        DownloadEvent::Checked { present, stale_archive } => DownloadEventView::Checked(present, stale_archive),
        DownloadEvent::Cleared => DownloadEventView::Cleared,
        DownloadEvent::Downloaded => DownloadEventView::Downloaded,
        DownloadEvent::Extracted => DownloadEventView::Extracted,
        DownloadEvent::FolderChecked(d) => DownloadEventView::FolderChecked(d),
        DownloadEvent::Removed => DownloadEventView::Removed,
        DownloadEvent::StepFailed(m) => DownloadEventView::StepFailed(m@),
    }
}

/// The plain values of an action.
pub open spec fn download_action_view(a: DownloadAction) -> DownloadActionView {
    match a {
        DownloadAction::Wait => DownloadActionView::Wait,
        DownloadAction::CheckTarget => DownloadActionView::CheckTarget,
        DownloadAction::ClearArchive => DownloadActionView::ClearArchive,
        DownloadAction::Download => DownloadActionView::Download,
        DownloadAction::Extract => DownloadActionView::Extract,
        DownloadAction::CheckFolder => DownloadActionView::CheckFolder,
        DownloadAction::RemoveArchive => DownloadActionView::RemoveArchive,
        DownloadAction::Complete => DownloadActionView::Complete,
        DownloadAction::Fail(m) => DownloadActionView::Fail(m@),
    }
}

/// One step of the download of the asset `asset_id` (an archive when
/// `archive`): a target already there completes it at once; an archive of
/// an earlier download is removed before downloading; a raw file is
/// complete once downloaded, an archive once extracted, its folder found
/// and the archive removed; a missing folder fails the download, and so
/// does any failed step. An event that does not belong to the stage
/// changes nothing.
pub open spec fn download_next(
    s: DownloadStage,
    e: DownloadEventView,
    archive: bool,
    asset_id: Seq<char>,
) -> (DownloadStage, DownloadActionView) {
    match (s, e) {
        (DownloadStage::Done, _) => (s, DownloadActionView::Wait),
        (_, DownloadEventView::StepFailed(m)) => (DownloadStage::Done, DownloadActionView::Fail(m)),
        (DownloadStage::Start, DownloadEventView::Begin) => (DownloadStage::Checking, DownloadActionView::CheckTarget),
        (DownloadStage::Checking, DownloadEventView::Checked(present, stale)) => if present {
            (DownloadStage::Done, DownloadActionView::Complete)
        } else if archive && stale {
            (DownloadStage::Clearing, DownloadActionView::ClearArchive)
        } else {
            (DownloadStage::Downloading, DownloadActionView::Download)
        },
        (DownloadStage::Clearing, DownloadEventView::Cleared) => (
            DownloadStage::Downloading,
            DownloadActionView::Download,
        ),
        (DownloadStage::Downloading, DownloadEventView::Downloaded) => if archive {
            (DownloadStage::Extracting, DownloadActionView::Extract)
        } else {
            (DownloadStage::Done, DownloadActionView::Complete)
        },
        (DownloadStage::Extracting, DownloadEventView::Extracted) => (
            DownloadStage::CheckingFolder,
            DownloadActionView::CheckFolder,
        ),
        (DownloadStage::CheckingFolder, DownloadEventView::FolderChecked(found)) => if found {
            (DownloadStage::Removing, DownloadActionView::RemoveArchive)
        } else {
            (
                DownloadStage::Done,
                DownloadActionView::Fail(
                    "Asset '"@ + asset_id + "' was extracted, but the expected folder was not created."@,
                ),
            )
        },
        (DownloadStage::Removing, DownloadEventView::Removed) => (DownloadStage::Done, DownloadActionView::Complete),
        _ => (s, DownloadActionView::Wait),
    }
}

/// Takes one step of a download.
pub fn download_step(stage: DownloadStage, event: DownloadEvent, archive: bool, asset_id: &str) -> (r: (
    DownloadStage,
    DownloadAction,
))
    ensures
        (r.0, download_action_view(r.1)) == download_next(stage, download_event_view(event), archive, asset_id@),
{
    match (stage, event) {
        (DownloadStage::Done, _) => (stage, DownloadAction::Wait),
        (_, DownloadEvent::StepFailed(m)) => (DownloadStage::Done, DownloadAction::Fail(m)),
        (DownloadStage::Start, DownloadEvent::Begin) => (DownloadStage::Checking, DownloadAction::CheckTarget),
        (DownloadStage::Checking, DownloadEvent::Checked { present, stale_archive }) => {
            if present {
                (DownloadStage::Done, DownloadAction::Complete)
            } else if archive && stale_archive {
                (DownloadStage::Clearing, DownloadAction::ClearArchive)
            } else {
                (DownloadStage::Downloading, DownloadAction::Download)
            }
        },
        (DownloadStage::Clearing, DownloadEvent::Cleared) => (DownloadStage::Downloading, DownloadAction::Download),
        (DownloadStage::Downloading, DownloadEvent::Downloaded) => {
            if archive {
                (DownloadStage::Extracting, DownloadAction::Extract)
            } else {
                (DownloadStage::Done, DownloadAction::Complete)
            }
        },
        (DownloadStage::Extracting, DownloadEvent::Extracted) => (DownloadStage::CheckingFolder, DownloadAction::CheckFolder),
        (DownloadStage::CheckingFolder, DownloadEvent::FolderChecked(found)) => {
            if found {
                (DownloadStage::Removing, DownloadAction::RemoveArchive)
            } else {
                (DownloadStage::Done, DownloadAction::Fail(extracted_folder_missing_message(asset_id)))
            }
        },
        (DownloadStage::Removing, DownloadEvent::Removed) => (DownloadStage::Done, DownloadAction::Complete),
        (stage, _) => (stage, DownloadAction::Wait),
    }
}

/// The progress an action reports before it is carried out: the
/// percentage and the status line.
pub open spec fn progress_report(a: DownloadActionView) -> Option<(u8, Seq<char>)> {
    match a {
        DownloadActionView::Download => Some((0u8, "Downloading..."@)),
        DownloadActionView::Extract => Some((100u8, "Extracting..."@)),
        DownloadActionView::Complete => Some((100u8, "Complete"@)),
        DownloadActionView::Fail(m) => Some((0u8, "Failed: "@ + m)),
        _ => None,
    }
}

/// The progress an action reports.
pub fn progress_report_of(a: &DownloadAction) -> (r: Option<(u8, String)>)
    ensures
        match r {
            Some((p, t)) => progress_report(download_action_view(*a)) == Some((p, t@)),
            None => progress_report(download_action_view(*a)) is None,
        },
{
    match a {
        DownloadAction::Download => Some((0, String::from_str("Downloading..."))),
        DownloadAction::Extract => Some((100, String::from_str("Extracting..."))),
        DownloadAction::Complete => Some((100, String::from_str("Complete"))),
        DownloadAction::Fail(m) => Some((0, String::from_str("Failed: ").concat(m.as_str()))),
        _ => None,
    }
}

/// How many steps a download at this stage has at most left.
pub open spec fn download_steps_left(s: DownloadStage) -> nat {
    match s {
        DownloadStage::Start => 7,
        DownloadStage::Checking => 6,
        DownloadStage::Clearing => 5,
        DownloadStage::Downloading => 4,
        DownloadStage::Extracting => 3,
        DownloadStage::CheckingFolder => 2,
        DownloadStage::Removing => 1,
        DownloadStage::Done => 0,
    }
}

/// Every step that does something moves the download forward, so it ends
/// after at most seven such steps; it ends exactly with `Complete` or
/// `Fail`, and a finished download stays finished.
pub proof fn lemma_download_moves_forward(s: DownloadStage, e: DownloadEventView, archive: bool, id: Seq<char>)
    ensures
        !(download_next(s, e, archive, id).1 is Wait) ==> download_steps_left(download_next(s, e, archive, id).0)
            < download_steps_left(s),
        download_next(s, e, archive, id).0 is Done && !(s is Done) <==> (download_next(s, e, archive, id).1 is Complete
            || download_next(s, e, archive, id).1 is Fail),
        s is Done ==> download_next(s, e, archive, id) == (s, DownloadActionView::Wait),
{
}

/// An asset is reported complete only when it was already there, when a
/// raw file has been downloaded, or when an extracted archive has been
/// removed after its folder was found.
pub proof fn lemma_complete_only_when_in_place(s: DownloadStage, e: DownloadEventView, archive: bool, id: Seq<char>)
    ensures
        download_next(s, e, archive, id).1 is Complete ==> {
            ||| s is Checking && (e matches DownloadEventView::Checked(present, _) && present)
            ||| s is Removing && e is Removed
            ||| !archive && s is Downloading && e is Downloaded
        },
{
}

} // verus!
