//! Task records: one per requested download, together with the status
//! machine their lifecycle follows and the mathematical view the store's
//! contracts are stated over.
use vstd::prelude::*;

verus! {

/// Lifecycle state of one download task.
#[derive(Debug)]
pub enum DownloadStatus {
    Pending,
    Downloading,
    Paused,
    Completed,
    Error(String),
}

/// One download and its lifecycle record.
#[derive(Debug)]
pub struct DownloadTask {
    pub id: String,
    pub url: String,
    pub filename: String,
    pub total_size: Option<u64>,
    pub downloaded_bytes: u64,
    pub status: DownloadStatus,
    pub save_path: String,
}

/// Mathematical image of a status.
pub ghost enum StatusView {
    Pending,
    Downloading,
    Paused,
    Completed,
    Error(Seq<char>),
}

/// Mathematical image of a task record.
pub ghost struct TaskView {
    pub id: Seq<char>,
    pub url: Seq<char>,
    pub filename: Seq<char>,
    pub total_size: Option<u64>,
    pub downloaded_bytes: u64,
    pub status: StatusView,
    pub save_path: Seq<char>,
}

impl View for DownloadStatus {
    type V = StatusView;

    open spec fn view(&self) -> StatusView {
        match self {
            DownloadStatus::Pending => StatusView::Pending,
            DownloadStatus::Downloading => StatusView::Downloading,
            DownloadStatus::Paused => StatusView::Paused,
            DownloadStatus::Completed => StatusView::Completed,
            DownloadStatus::Error(reason) => StatusView::Error(reason@),
        }
    }
}

impl View for DownloadTask {
    type V = TaskView;

    open spec fn view(&self) -> TaskView {
        TaskView {
            id: self.id@,
            url: self.url@,
            filename: self.filename@,
            total_size: self.total_size,
            downloaded_bytes: self.downloaded_bytes,
            status: self.status@,
            save_path: self.save_path@,
        }
    }
}

impl DownloadStatus {
    /// An exact copy of the status.
    pub fn duplicate(&self) -> (r: Self)
        ensures
            r@ == self@,
    {
        match self {
            DownloadStatus::Pending => DownloadStatus::Pending,
            DownloadStatus::Downloading => DownloadStatus::Downloading,
            DownloadStatus::Paused => DownloadStatus::Paused,
            DownloadStatus::Completed => DownloadStatus::Completed,
            DownloadStatus::Error(reason) => DownloadStatus::Error(reason.clone()),
        }
    }
}

impl DownloadTask {
    /// An exact copy of the record.
    pub fn duplicate(&self) -> (r: Self)
        ensures
            r@ == self@,
    {
        DownloadTask {
            id: self.id.clone(),
            url: self.url.clone(),
            filename: self.filename.clone(),
            total_size: self.total_size,
            downloaded_bytes: self.downloaded_bytes,
            status: self.status.duplicate(),
            save_path: self.save_path.clone(),
        }
    }
}

} // verus!
