//! Configuration of the streaming-service provider and the paging of its
//! listings.

use vstd::prelude::*;

verus! {

/// Stream quality asked of the service.
#[derive(Clone, Copy, Debug, PartialEq, Eq)]
pub enum AudioQuality {
    Low,
    High,
    Lossless,
    HiRes,
}

/// Login state kept between runs.
#[derive(Clone, Debug, PartialEq, Eq)]
pub struct LoginConfig {
    pub device_code: Option<String>,
    pub user_id: Option<String>,
    pub country_code: Option<String>,
    pub access_token: Option<String>,
    pub refresh_token: Option<String>,
    pub expires_after: Option<u64>,
}

/// The client credentials and endpoint of the service's authorisation.
#[derive(Clone, Debug, PartialEq, Eq)]
pub struct OauthConfig {
    pub client_id: String,
    pub client_secret: String,
    pub base_url: String,
}

/// The provider's settings.
#[derive(Clone, Debug, PartialEq, Eq)]
pub struct Settings {
    pub base_url: String,
    pub hifi_url: String,
    pub audio_quality: AudioQuality,
    pub login: LoginConfig,
    pub oauth: OauthConfig,
}

/// Errors of keeping the provider's settings.
#[derive(Clone, Copy, Debug, PartialEq, Eq)]
pub enum ConfigError {
    Write,
}

impl ConfigError {
    /// A description for people.
    pub fn message(&self) -> (r: &'static str)
        ensures
            r@ == "failed to write config file"@,
    {
        "failed to write config file"
    }
}

/// One page of a listing of the service.
#[derive(Clone, Debug, PartialEq, Eq)]
pub struct Page<T> {
    pub limit: Option<usize>,
    pub offset: usize,
    pub total_number_of_items: usize,
    pub items: Vec<T>,
}

impl<T> Page<T> {
    /// The offset of the page after this one when pages hold `limit`
    /// items, or `None` when this page is the last.
    pub fn next_offset(&self, limit: usize) -> (r: Option<usize>)
        ensures
            r == if self.offset + limit < self.total_number_of_items {
                Some((self.offset + limit) as usize)
            } else {
                None::<usize>
            },
    {
        if limit < self.total_number_of_items && self.offset < self.total_number_of_items - limit {
            Some(self.offset + limit)
        } else {
            None
        }
    }
}

} // verus!
