//! Where the mailbox objects live.

use vstd::prelude::*;
use vstd::string::StringExecFns;

verus! {

/// S3 configuration data.
#[derive(Debug, Clone, PartialEq, Eq)]
pub struct S3Config {
    /// User access key to s3.
    pub access_key: String,
    /// Bucket name.
    pub bucket_name: String,
    /// Bucket prefix.
    pub bucket_prefix: String,
    /// Bucket location.
    pub bucket_location: String,
    /// User secret key.
    pub secret_key: String,
}

impl S3Config {
    /// The key of a mailbox object within the bucket: the prefix, a slash and
    /// the name of the mailbox.
    pub open spec fn key_of(&self, file: Seq<char>) -> Seq<char> {
        self.bucket_prefix@ + "/"@ + file
    }

    /// The place under which the mailbox objects lie, as `s3cmd` names it.
    pub open spec fn place(&self) -> Seq<char> {
        "s3://"@ + self.bucket_name@ + "/"@ + self.bucket_prefix@ + "/"@
    }

    /// The key of the mailbox object `file` within the bucket.
    pub fn object_key(&self, file: &str) -> (key: String)
        ensures
            key@ == self.key_of(file@),
    {
        let mut key = String::from_str(self.bucket_prefix.as_str());
        key.append("/");
        key.append(file);
        key
    }

    /// The place under which the mailbox objects lie, as `s3cmd` names it.
    pub fn bucket_place(&self) -> (place: String)
        ensures
            place@ == self.place(),
    {
        let mut place = String::from_str("s3://");
        place.append(self.bucket_name.as_str());
        place.append("/");
        place.append(self.bucket_prefix.as_str());
        place.append("/");
        place
    }

    /// The mailbox object `file`, as `s3cmd` names it.
    pub fn object_url(&self, file: &str) -> (url: String)
        ensures
            url@ == self.place() + file@,
    {
        let mut url = self.bucket_place();
        url.append(file);
        url
    }
}

} // verus!
