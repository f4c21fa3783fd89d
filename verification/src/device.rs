//! The appliance identity advertised to clients: fixed vendor fields plus an
//! identity derived deterministically from the configured base address, so
//! that a restart against an unchanged address is not a new appliance.

use vstd::prelude::*;

use crate::config::Config;
use crate::lineup::{join_url, spec_join};

verus! {

#[derive(Clone, Debug, PartialEq, Eq)]
pub struct Device {
    pub friendly_name: String,
    pub manufacturer: String,
    pub manufacturer_url: String,
    pub model_number: String,
    pub firmware_name: String,
    pub tuner_count: u8,
    pub firmware_version: String,
    pub device_id: String,
    pub device_auth: String,
    pub base_url: String,
    pub lineup_url: String,
}

/// The hyphenated name-based (version 5) UUID of a name under the URL
/// namespace: a pure function of the name.
pub uninterp spec fn uuid_v5_url_of(name: Seq<char>) -> Seq<char>;

/// Relies on `Uuid::new_v5` with `Uuid::NAMESPACE_URL`: the result is a
/// deterministic digest of the namespace and name bytes alone, and
/// `to_string` renders its canonical hyphenated form.
#[verifier::external_body]
fn uuid_v5_url_string(name: &str) -> (r: String)
    ensures
        r@ == uuid_v5_url_of(name@),
{
    uuid::Uuid::new_v5(&uuid::Uuid::NAMESPACE_URL, name.as_bytes()).to_string()
}

impl Default for Device {
    /// Placeholder identity of a plausible tuner appliance.
    fn default() -> (d: Self)
        ensures
            d.friendly_name@ == "HDHomeRun"@,
            d.manufacturer@ == "Silicondust"@,
            d.manufacturer_url@ == "https://www.silicondust.com/"@,
            d.model_number@ == "HDTC-2US"@,
            d.firmware_name@ == "hdhomerun3_atsc"@,
            d.tuner_count == 2,
            d.firmware_version@ == "20150826"@,
            d.device_id@ == "bb0df8cf-0cbe-4467-9941-2c0826afb3ac"@,
            d.device_auth@ == "none"@,
            d.base_url@ == "http://localhost:8080"@,
            d.lineup_url@ == "http://localhost:8080/lineup.json"@,
    {
        Device {
            friendly_name: "HDHomeRun".to_owned(),
            manufacturer: "Silicondust".to_owned(),
            manufacturer_url: "https://www.silicondust.com/".to_owned(),
            model_number: "HDTC-2US".to_owned(),
            firmware_name: "hdhomerun3_atsc".to_owned(),
            tuner_count: 2,
            firmware_version: "20150826".to_owned(),
            device_id: "bb0df8cf-0cbe-4467-9941-2c0826afb3ac".to_owned(),
            device_auth: "none".to_owned(),
            base_url: "http://localhost:8080".to_owned(),
            lineup_url: "http://localhost:8080/lineup.json".to_owned(),
        }
    }
}

impl Device {
    /// The identity for a configuration: the device id is a deterministic
    /// function of the base address, the lineup address is the base joined
    /// with its fixed suffix, and the advertised tuner count is taken from
    /// the configuration; the remaining fields are the fixed defaults.
    pub fn from(config: &Config) -> (d: Device)
        ensures
            d.device_id@ == uuid_v5_url_of(config.base_url@),
            d.base_url@ == config.base_url@,
            d.lineup_url@ == spec_join(config.base_url@, "lineup.json"@),
            d.tuner_count == config.tuner_count as u8,
            d.friendly_name@ == "HDHomeRun"@,
            d.manufacturer@ == "Silicondust"@,
            d.manufacturer_url@ == "https://www.silicondust.com/"@,
            d.model_number@ == "HDTC-2US"@,
            d.firmware_name@ == "hdhomerun3_atsc"@,
            d.firmware_version@ == "20150826"@,
            d.device_auth@ == "none"@,
    {
        let mut d = Device::default();
        d.device_id = uuid_v5_url_string(config.base_url.as_str());
        d.base_url = config.base_url.clone();
        d.lineup_url = join_url(config.base_url.as_str(), "lineup.json");
        d.tuner_count = #[verifier::truncate] (config.tuner_count as u8);
        d
    }
}

} // verus!
