//! The audio endpoint list that device enumeration reports. Which endpoints
//! exist, and what each reports of itself, the caller learns from the system;
//! this module decides what the list holds.

use vstd::prelude::*;
use vstd::string::*;
use crate::database::lemma_filter_map_has;
use crate::text::{chars_eq, chars_of};

verus! {

/// Information about an available audio endpoint device.
#[derive(Debug, Clone)]
pub struct AudioDeviceInfo {
    pub id: String,
    pub name: String,
    pub is_default: bool,
    pub sample_rate: u32,
    pub channels: u16,
}

/// The value an `AudioDeviceInfo` stands for.
pub struct DeviceModel {
    pub id: Seq<char>,
    pub name: Seq<char>,
    pub is_default: bool,
    pub sample_rate: u32,
    pub channels: u16,
}

impl View for AudioDeviceInfo {
    type V = DeviceModel;

    open spec fn view(&self) -> DeviceModel {
        DeviceModel {
            id: self.id@,
            name: self.name@,
            is_default: self.is_default,
            sample_rate: self.sample_rate,
            channels: self.channels,
        }
    }
}

/// The information an endpoint reported, when it could be read.
pub open spec fn read_info(o: Option<AudioDeviceInfo>) -> Option<DeviceModel> {
    match o {
        Some(d) => Some(d@),
        None => None,
    }
}

/// The listed form of what an endpoint reported: marked default exactly when
/// its id is the default endpoint's id.
pub open spec fn listed_device(o: Option<DeviceModel>, default_id: Seq<char>) -> Option<DeviceModel> {
    match o {
        Some(d) => Some(DeviceModel { is_default: d.id == default_id, ..d }),
        None => None,
    }
}

/// `listed` is what endpoint `d` reported, with only `is_default` set anew: to
/// whether its id is `default_id`.
pub open spec fn lists_as(listed: DeviceModel, d: DeviceModel, default_id: Seq<char>) -> bool {
    &&& listed.id == d.id
    &&& listed.name == d.name
    &&& listed.sample_rate == d.sample_rate
    &&& listed.channels == d.channels
    &&& listed.is_default == (d.id == default_id)
}

/// Every listed device is one that an endpoint reported, with every field as
/// reported but `is_default`, which says whether it is the default endpoint.
/// The result is that endpoint's position.
pub proof fn law_listed_device_keeps_reported_fields(
    found: Seq<Option<DeviceModel>>,
    default_id: Seq<char>,
    listed: Seq<DeviceModel>,
    k: int,
) -> (i: int)
    requires
        listed == found.filter_map(|o: Option<DeviceModel>| listed_device(o, default_id)),
        0 <= k < listed.len(),
    ensures
        0 <= i < found.len(),
        found[i] matches Some(d) && lists_as(listed[k], d, default_id),
{
    let sel = |o: Option<DeviceModel>| listed_device(o, default_id);
    assert(listed == found.filter_map(sel));
    assert(listed.contains(listed[k]));
    found.lemma_filter_map_contains(sel, listed[k]);
    let t = choose|t: Option<DeviceModel>| #[trigger] found.contains(t) && sel(t) == Some(listed[k]);
    let i = choose|i: int| 0 <= i < found.len() && found[i] == t;
    i
}

/// Every endpoint whose information could be read is listed. The result is its
/// position in the list.
pub proof fn law_readable_device_is_listed(
    found: Seq<Option<DeviceModel>>,
    default_id: Seq<char>,
    listed: Seq<DeviceModel>,
    i: int,
) -> (k: int)
    requires
        listed == found.filter_map(|o: Option<DeviceModel>| listed_device(o, default_id)),
        0 <= i < found.len(),
        found[i] is Some,
    ensures
        0 <= k < listed.len(),
        lists_as(listed[k], found[i]->0, default_id),
{
    let sel = |o: Option<DeviceModel>| listed_device(o, default_id);
    assert(listed == found.filter_map(sel));
    lemma_filter_map_has(found, sel, i);
    let k = choose|k: int| 0 <= k < listed.len() && listed[k] == sel(found[i])->0;
    k
}

/// One device is listed for each endpoint whose information could be read.
pub proof fn law_one_device_per_readable_endpoint(found: Seq<Option<DeviceModel>>, default_id: Seq<char>)
    ensures
        found.filter_map(|o: Option<DeviceModel>| listed_device(o, default_id)).len() == found.filter(
            |o: Option<DeviceModel>| o is Some,
        ).len(),
    decreases found.len(),
{
    reveal_with_fuel(Seq::filter_map, 1);
    reveal_with_fuel(Seq::filter, 1);
    if found.len() > 0 {
        law_one_device_per_readable_endpoint(found.drop_last(), default_id);
    }
}

/// The name to show for an endpoint: its friendly name when it could be read
/// as text, else "Unknown Device".
pub fn friendly_name(read: Option<String>) -> (r: String)
    ensures
        match read {
            Some(s) => r@ == s@,
            None => r@ == "Unknown Device"@,
        },
{
    match read {
        Some(s) => s,
        None => String::from_str("Unknown Device"),
    }
}

/// The device list of an enumeration, out of what each endpoint reported in
/// enumeration order (`None` where its information could not be read): the
/// readable ones, in that order, each marked default when its id is `default_id`.
pub fn collect_devices(found: &Vec<Option<AudioDeviceInfo>>, default_id: &str) -> (r: Vec<
    AudioDeviceInfo,
>)
    ensures
        r@.map_values(|d: AudioDeviceInfo| d@) == found@.map_values(
            |o: Option<AudioDeviceInfo>| read_info(o),
        ).filter_map(|o: Option<DeviceModel>| listed_device(o, default_id@)),
{
    let dc = chars_of(default_id);
    let ghost fm = found@.map_values(|o: Option<AudioDeviceInfo>| read_info(o));
    let ghost sel = |o: Option<DeviceModel>| listed_device(o, default_id@);
    let mut r: Vec<AudioDeviceInfo> = Vec::new();
    let mut i: usize = 0;
    while i < found.len()
        invariant
            i <= found.len(),
            dc@ == default_id@,
            fm == found@.map_values(|o: Option<AudioDeviceInfo>| read_info(o)),
            sel == (|o: Option<DeviceModel>| listed_device(o, default_id@)),
            r@.map_values(|d: AudioDeviceInfo| d@) == fm.take(i as int).filter_map(sel),
        decreases found.len() - i,
    {
        proof {
            fm.lemma_filter_map_take_succ(sel, i as int);
        }
        assert(fm[i as int] == read_info(found@[i as int]));
        match &found[i] {
            Some(d) => {
                let ghost old_r = r@;
                let is_default = chars_eq(&chars_of(d.id.as_str()), &dc);
                let listed = AudioDeviceInfo {
                    id: d.id.clone(),
                    name: d.name.clone(),
                    is_default,
                    sample_rate: d.sample_rate,
                    channels: d.channels,
                };
                r.push(listed);
                assert(r@.map_values(|d: AudioDeviceInfo| d@) =~= old_r.map_values(
                    |d: AudioDeviceInfo| d@,
                ) + seq![listed@]);
            },
            None => {},
        }
        i = i + 1;
    }
    assert(fm.take(i as int) =~= fm);
    r
}

} // verus!
