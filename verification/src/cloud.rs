//! Cloud object stores: the supported backends.
use vstd::prelude::*;

verus! {

/// Supported cloud backends.
#[derive(Debug)]
pub enum CloudBackend {
    S3 { bucket: String, region: String },
    Gcs { bucket: String },
    Azure { container: String, account: String },
}

/// Name under which errors creating a store for a backend are reported.
pub open spec fn store_error_name(b: CloudBackend) -> Seq<char> {
    match b {
        CloudBackend::S3 { .. } => "cloud_s3"@,
        CloudBackend::Gcs { .. } => "cloud_gcs"@,
        CloudBackend::Azure { .. } => "cloud_azure"@,
    }
}

impl CloudBackend {
    /// Name under which errors creating this backend's store are reported
    /// (`store_error_name`).
    pub fn error_name(&self) -> (r: &'static str)
        ensures
            r@ == store_error_name(*self),
    {
        match self {
            CloudBackend::S3 { .. } => "cloud_s3",
            CloudBackend::Gcs { .. } => "cloud_gcs",
            CloudBackend::Azure { .. } => "cloud_azure",
        }
    }
}

} // verus!
