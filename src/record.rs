//! One retained asset.
use vstd::prelude::*;

verus! {

/// What a record says, as mathematical values.
pub struct AssetRecordView {
    pub key: Seq<char>,
    pub group_label: Seq<char>,
    pub local_path: Seq<char>,
    pub downloaded_at: Seq<char>,
    pub size_bytes: nat,
}

/// One asset that has been downloaded and written to disk.
#[derive(Debug)]
pub struct AssetRecord {
    /// The asset's remote path; the record's identity in a manifest.
    pub key: String,
    /// A descriptive grouping, such as the collection the asset belongs to.
    pub group_label: String,
    /// Where the downloaded copy lives.
    pub local_path: String,
    /// When the download completed, as an RFC 3339 timestamp.
    pub downloaded_at: String,
    /// The number of bytes written to `local_path`.
    pub size_bytes: u64,
}

impl View for AssetRecord {
    type V = AssetRecordView;

    open spec fn view(&self) -> AssetRecordView {
        AssetRecordView {
            key: self.key@,
            group_label: self.group_label@,
            local_path: self.local_path@,
            downloaded_at: self.downloaded_at@,
            size_bytes: self.size_bytes as nat,
        }
    }
}

impl AssetRecord {
    /// A record with the given fields.
    pub fn new(
        key: String,
        group_label: String,
        local_path: String,
        downloaded_at: String,
        size_bytes: u64,
    ) -> (r: AssetRecord)
        ensures
            r.key == key,
            r.group_label == group_label,
            r.local_path == local_path,
            r.downloaded_at == downloaded_at,
            r.size_bytes == size_bytes,
    {
        AssetRecord { key, group_label, local_path, downloaded_at, size_bytes }
    }

    /// A copy of this record, field for field.
    pub fn duplicate(&self) -> (r: AssetRecord)
        ensures
            r@ == self@,
    {
        AssetRecord {
            key: self.key.clone(),
            group_label: self.group_label.clone(),
            local_path: self.local_path.clone(),
            downloaded_at: self.downloaded_at.clone(),
            size_bytes: self.size_bytes,
        }
    }
}

} // verus!
