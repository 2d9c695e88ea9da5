//! Output devices, and the detection of the BlackHole loopback driver among them.
use crate::text::{chars_of, contains_seq, lowercase, lowercase_contains};
use vstd::prelude::*;

verus! {

broadcast use vstd::seq_lib::group_seq_properties;

/// An output device: its CoreAudio object id and its name.
#[derive(Clone, Debug, PartialEq, Eq)]
pub struct AudioDeviceInfo {
    pub id: u32,
    pub name: String,
}

/// Whether a BlackHole device is present, and which output devices are BlackHole.
#[derive(Clone, Debug, PartialEq, Eq)]
pub struct BlackHoleStatus {
    pub installed: bool,
    pub devices: Vec<AudioDeviceInfo>,
}

/// What the host learned of one audio device: the status and size of its
/// output-stream list query, and its name when the name query succeeded.
#[derive(Clone, Debug)]
pub struct OutputDeviceProbe {
    pub id: u32,
    pub streams_status: i32,
    pub streams_size: u32,
    pub name: Option<String>,
}

/// The device has at least one output stream.
pub open spec fn spec_has_output_streams(p: OutputDeviceProbe) -> bool {
    p.streams_status == 0 && p.streams_size > 0
}

impl OutputDeviceProbe {
    /// The stream query succeeded and reported at least one output stream;
    /// only then is the device's name worth asking for.
    pub fn has_output_streams(&self) -> (r: bool)
        ensures
            r == spec_has_output_streams(*self),
    {
        self.streams_status == 0 && self.streams_size > 0
    }
}

/// The entry a probe contributes to the device list: devices with an output
/// stream and a name.
pub open spec fn listed_device(p: OutputDeviceProbe) -> Option<AudioDeviceInfo> {
    if spec_has_output_streams(p) && p.name is Some {
        Some(AudioDeviceInfo { id: p.id, name: p.name->0 })
    } else {
        None
    }
}

/// The output devices among the probed ones, in probing order.
pub fn select_output_devices(probes: &Vec<OutputDeviceProbe>) -> (r: Vec<AudioDeviceInfo>)
    ensures
        r@ == probes@.filter_map(|p: OutputDeviceProbe| listed_device(p)),
{
    let mut out: Vec<AudioDeviceInfo> = Vec::new();
    let mut i: usize = 0;
    while i < probes.len()
        invariant
            i <= probes@.len(),
            out@ == probes@.take(i as int).filter_map(|p: OutputDeviceProbe| listed_device(p)),
        decreases probes@.len() - i,
    {
        proof {
            probes@.lemma_filter_map_take_succ(|p: OutputDeviceProbe| listed_device(p), i as int);
        }
        let p = &probes[i];
        if p.has_output_streams() {
            match &p.name {
                Some(n) => {
                    let info = AudioDeviceInfo { id: p.id, name: n.clone() };
                    assert(listed_device(probes@[i as int]) == Some(info));
                    out.push(info);
                },
                None => {},
            }
        }
        i = i + 1;
    }
    assert(probes@.take(probes@.len() as int) =~= probes@);
    out
}

/// The device's name, lowercased, mentions "blackhole".
pub open spec fn is_blackhole(d: AudioDeviceInfo) -> bool {
    contains_seq(lowercase(d.name@), "blackhole"@)
}

/// Picks out the BlackHole devices among the output devices: those whose
/// lowercased name contains "blackhole", in the order they were listed.
/// BlackHole counts as installed when at least one was found.
pub fn check_blackhole(all: Vec<AudioDeviceInfo>) -> (r: BlackHoleStatus)
    ensures
        r.devices@ == all@.filter(|d: AudioDeviceInfo| is_blackhole(d)),
        r.installed == (r.devices@.len() > 0),
        forall|i: int|
            0 <= i < r.devices@.len() ==> contains_seq(
                lowercase(#[trigger] r.devices@[i].name@),
                "blackhole"@,
            ),
        forall|i: int|
            0 <= i < all@.len() && contains_seq(lowercase(#[trigger] all@[i].name@), "blackhole"@)
                ==> r.devices@.contains(all@[i]),
        forall|i: int| 0 <= i < r.devices@.len() ==> all@.contains(#[trigger] r.devices@[i]),
{
    let needle = chars_of("blackhole");
    let mut devices: Vec<AudioDeviceInfo> = Vec::new();
    let mut i: usize = 0;
    while i < all.len()
        invariant
            i <= all@.len(),
            needle@ == "blackhole"@,
            devices@ == all@.take(i as int).filter(|d: AudioDeviceInfo| is_blackhole(d)),
        decreases all@.len() - i,
    {
        proof {
            assert(all@.take(i + 1) =~= all@.take(i as int).push(all@[i as int]));
            all@.take(i as int).lemma_filter_push(all@[i as int], |d: AudioDeviceInfo| is_blackhole(d));
        }
        let d = &all[i];
        let hit = lowercase_contains(d.name.as_str(), &needle);
        assert(hit == is_blackhole(all@[i as int]));
        if hit {
            let copy = AudioDeviceInfo { id: d.id, name: d.name.clone() };
            assert(copy == all@[i as int]);
            devices.push(copy);
        }
        i = i + 1;
    }
    assert(all@.take(all@.len() as int) =~= all@);
    proof {
        law_blackhole_selection(all@);
        assert forall|i: int| 0 <= i < devices@.len() implies all@.contains(
            #[trigger] devices@[i],
        ) by {
            assert(devices@[i] == blackhole_devices(all@)[i]);
        }
        assert forall|i: int| 0 <= i < devices@.len() implies contains_seq(
            lowercase(#[trigger] devices@[i].name@),
            "blackhole"@,
        ) by {
            assert(devices@[i] == blackhole_devices(all@)[i]);
        }
    }
    let installed = devices.len() > 0;
    BlackHoleStatus { installed, devices }
}

/// BlackHole counts as installed exactly when some output device is BlackHole.
pub proof fn law_installed_iff_some_blackhole(all: Seq<AudioDeviceInfo>)
    ensures
        (all.filter(|d: AudioDeviceInfo| is_blackhole(d)).len() > 0) <==> (exists|i: int|
            0 <= i < all.len() && is_blackhole(#[trigger] all[i])),
{
    let f = all.filter(|d: AudioDeviceInfo| is_blackhole(d));
    if f.len() > 0 {
        all.lemma_filter_pred(|d: AudioDeviceInfo| is_blackhole(d), 0);
        all.lemma_filter_contains_rev(|d: AudioDeviceInfo| is_blackhole(d), f[0]);
    }
    if exists|i: int| 0 <= i < all.len() && is_blackhole(#[trigger] all[i]) {
        let i = choose|i: int| 0 <= i < all.len() && is_blackhole(#[trigger] all[i]);
        all.lemma_filter_contains(|d: AudioDeviceInfo| is_blackhole(d), i);
    }
}

/// The devices `check_blackhole` picks out of `all`.
pub open spec fn blackhole_devices(all: Seq<AudioDeviceInfo>) -> Seq<AudioDeviceInfo> {
    all.filter(|d: AudioDeviceInfo| is_blackhole(d))
}

/// The BlackHole devices are exactly the devices whose lowercased name
/// contains "blackhole": every device picked has such a name, every device
/// with such a name is picked, and nothing else comes in.
pub proof fn law_blackhole_selection(all: Seq<AudioDeviceInfo>)
    ensures
        forall|i: int|
            0 <= i < blackhole_devices(all).len() ==> contains_seq(
                lowercase(#[trigger] blackhole_devices(all)[i].name@),
                "blackhole"@,
            ),
        forall|i: int|
            0 <= i < all.len() && contains_seq(lowercase(#[trigger] all[i].name@), "blackhole"@)
                ==> blackhole_devices(all).contains(all[i]),
        forall|i: int|
            0 <= i < blackhole_devices(all).len() ==> all.contains(
                #[trigger] blackhole_devices(all)[i],
            ),
{
    let f = all.filter(|d: AudioDeviceInfo| is_blackhole(d));
    assert forall|i: int| 0 <= i < f.len() implies contains_seq(
        lowercase(#[trigger] f[i].name@),
        "blackhole"@,
    ) && all.contains(f[i]) by {
        all.lemma_filter_pred(|d: AudioDeviceInfo| is_blackhole(d), i);
        all.lemma_filter_contains_rev(|d: AudioDeviceInfo| is_blackhole(d), f[i]);
    }
    assert forall|i: int|
        0 <= i < all.len() && contains_seq(lowercase(#[trigger] all[i].name@), "blackhole"@)
            implies f.contains(all[i]) by {
        all.lemma_filter_contains(|d: AudioDeviceInfo| is_blackhole(d), i);
    }
}

impl BlackHoleStatus {
    /// The device that routed audio is written to: the first BlackHole
    /// device, when one is installed.
    pub fn output_device(&self) -> (r: Option<u32>)
        ensures
            r == (if self.devices@.len() > 0 {
                Some(self.devices@[0].id)
            } else {
                None::<u32>
            }),
    {
        if self.devices.len() > 0 {
            Some(self.devices[0].id)
        } else {
            None
        }
    }
}

} // verus!
