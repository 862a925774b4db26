//! Service configuration and the upload policy taken from it.

use crate::text::decimal_text;
use crate::text::push_decimal;
use vstd::prelude::*;

verus! {

/// The settings of the service.
pub struct Config {
    pub db_host: String,
    pub db_port: u16,
    pub db_user: String,
    pub db_password: String,
    pub db_name: String,
    pub db_prefix: String,
    pub db_url: Option<String>,
    pub app_name: String,
    pub s3_url: String,
    pub s3_bucket: String,
    pub s3_access_key: String,
    pub s3_secret_key: String,
    pub keycloak_ui_id: String,
    pub keycloak_url: String,
    pub keycloak_realm: String,
    pub deployment: String,
    pub _kube_config: String,
    pub kube_namespace: String,
    pub interval_external_services: u64,
    pub submission_base_image: String,
    pub submission_base_image_tag: String,
    /// Prefix of every storage key within the bucket.
    pub s3_prefix: String,
    pub pod_prefix: String,
}

/// `{prefix}://{user}:{password}@{host}:{port}/{name}`.
pub open spec fn db_url_text(c: Config) -> Seq<char> {
    c.db_prefix@ + "://"@ + c.db_user@ + ":"@ + c.db_password@ + "@"@ + c.db_host@ + ":"@
        + decimal_text(c.db_port as nat) + "/"@ + c.db_name@
}

impl Config {
    /// Fills in the database URL from its parts; every other setting stays.
    pub fn form_db_url(self) -> (r: Self)
        ensures
            r.db_url matches Some(u) && u@ == db_url_text(self),
            r == (Config { db_url: r.db_url, ..self }),
    {
        let mut url = self.db_prefix.clone();
        url.append("://");
        url.append(self.db_user.as_str());
        url.append(":");
        url.append(self.db_password.as_str());
        url.append("@");
        url.append(self.db_host.as_str());
        url.append(":");
        push_decimal(&mut url, self.db_port as u128);
        url.append("/");
        url.append(self.db_name.as_str());
        let mut c = self;
        c.db_url = Some(url);
        c
    }
}

/// What the ingestion rules take from configuration.
pub struct UploadPolicy {
    /// Content types that an upload may declare.
    pub allowed_content_types: Vec<String>,
    /// File extensions that an upload may carry.
    pub allowed_extensions: Vec<String>,
    /// Prefix of the storage keys handed to the proxy.
    pub key_prefix: String,
    /// Whether a terminated upload's content is deleted too.
    pub delete_blob_on_terminate: bool,
}

/// Whether `x` is one of `allowed`.
pub open spec fn listed(allowed: Seq<String>, x: Seq<char>) -> bool {
    exists|i: int| 0 <= i < allowed.len() && #[trigger] allowed[i]@ == x
}

/// Whether `x` is one of `allowed`.
pub fn is_listed(allowed: &Vec<String>, x: &String) -> (r: bool)
    ensures
        r == listed(allowed@, x@),
{
    let mut i: usize = 0;
    while i < allowed.len()
        invariant
            i <= allowed@.len(),
            forall|k: int| 0 <= k < i ==> allowed@[k]@ != x@,
        decreases allowed@.len() - i,
    {
        if allowed[i] == *x {
            assert(allowed@[i as int]@ == x@);
            return true;
        }
        i = i + 1;
    }
    false
}

impl UploadPolicy {
    /// The service's policy: `application/octet-stream` content with the
    /// `pod5` extension, stored under `key_prefix`, and terminated uploads'
    /// content left to the proxy.
    pub fn standard(key_prefix: String) -> (r: UploadPolicy)
        ensures
            r.allowed_content_types@.len() == 1,
            r.allowed_content_types@[0]@ == "application/octet-stream"@,
            r.allowed_extensions@.len() == 1,
            r.allowed_extensions@[0]@ == "pod5"@,
            r.key_prefix == key_prefix,
            !r.delete_blob_on_terminate,
    {
        let mut types: Vec<String> = Vec::new();
        types.push(String::from_str("application/octet-stream"));
        let mut extensions: Vec<String> = Vec::new();
        extensions.push(String::from_str("pod5"));
        UploadPolicy {
            allowed_content_types: types,
            allowed_extensions: extensions,
            key_prefix,
            delete_blob_on_terminate: false,
        }
    }
}

} // verus!
