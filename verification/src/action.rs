//! What the lighting code asks of the devices, and how it refuses.

use vstd::prelude::*;
use crate::effect::{EffectView, RgbEffect};
use crate::fan_type::WirelessFanType;
use crate::text::{dec, push_dec};

verus! {

/// One piece of work for a device.
#[derive(Debug, PartialEq, Eq)]
pub enum Action {
    /// Set the effect of a zone of a wired device.
    WiredEffect { device_id: String, zone: u8, effect: RgbEffect },
    /// Set the LEDs of a zone of a wired device.
    WiredColors { device_id: String, zone: u8, colors: Vec<[u8; 3]> },
    /// Hand a wired device to the mainboard's lighting, or take it back.
    WiredSync { device_id: String, enabled: bool },
    /// Set which way round the patterns of a wired zone run.
    WiredDirection { device_id: String, zone: u8, swap_lr: bool, swap_tb: bool },
    /// Send one frame to a bank.
    SendDirect { mac: [u8; 6], leds: Vec<[u8; 3]>, effect_index: [u8; 4], repeats: u8 },
    /// Send a loop of frames to a bank.
    SendFrames {
        mac: [u8; 6],
        frames: Vec<Vec<[u8; 3]>>,
        interval_ms: u16,
        effect_index: [u8; 4],
        repeats: u8,
    },
}

/// The mathematical content of an [`Action`].
#[verifier::ext_equal]
pub enum ActionView {
    WiredEffect { device_id: Seq<char>, zone: u8, effect: EffectView },
    WiredColors { device_id: Seq<char>, zone: u8, colors: Seq<[u8; 3]> },
    WiredSync { device_id: Seq<char>, enabled: bool },
    WiredDirection { device_id: Seq<char>, zone: u8, swap_lr: bool, swap_tb: bool },
    SendDirect { mac: [u8; 6], leds: Seq<[u8; 3]>, effect_index: [u8; 4], repeats: u8 },
    SendFrames {
        mac: [u8; 6],
        frames: Seq<Seq<[u8; 3]>>,
        interval_ms: u16,
        effect_index: [u8; 4],
        repeats: u8,
    },
}

/// The contents of a loop of frames.
pub open spec fn frames_view(frames: Seq<Vec<[u8; 3]>>) -> Seq<Seq<[u8; 3]>> {
    frames.map_values(|f: Vec<[u8; 3]>| f@)
}

impl View for Action {
    type V = ActionView;

    open spec fn view(&self) -> ActionView {
        match self {
            Action::WiredEffect { device_id, zone, effect } => ActionView::WiredEffect {
                device_id: device_id@,
                zone: *zone,
                effect: effect@,
            },
            Action::WiredColors { device_id, zone, colors } => ActionView::WiredColors {
                device_id: device_id@,
                zone: *zone,
                colors: colors@,
            },
            Action::WiredSync { device_id, enabled } => ActionView::WiredSync {
                device_id: device_id@,
                enabled: *enabled,
            },
            Action::WiredDirection { device_id, zone, swap_lr, swap_tb } => ActionView::WiredDirection {
                device_id: device_id@,
                zone: *zone,
                swap_lr: *swap_lr,
                swap_tb: *swap_tb,
            },
            Action::SendDirect { mac, leds, effect_index, repeats } => ActionView::SendDirect {
                mac: *mac,
                leds: leds@,
                effect_index: *effect_index,
                repeats: *repeats,
            },
            Action::SendFrames { mac, frames, interval_ms, effect_index, repeats } => ActionView::SendFrames {
                mac: *mac,
                frames: frames_view(frames@),
                interval_ms: *interval_ms,
                effect_index: *effect_index,
                repeats: *repeats,
            },
        }
    }
}

/// Why a request is refused.
#[derive(Debug, PartialEq, Eq)]
pub enum RgbError {
    DeviceNotFound { device_id: String },
    ZoneOutOfRange { zone: u8, total_zones: usize, fan_type: WirelessFanType, fan_count: u8 },
    SyncUnsupported { device_id: String },
    DirectionUnsupported { device_id: String },
}

/// The mathematical content of an [`RgbError`].
#[verifier::ext_equal]
pub enum ErrorView {
    DeviceNotFound { device_id: Seq<char> },
    ZoneOutOfRange { zone: u8, total_zones: nat, fan_type: WirelessFanType, fan_count: u8 },
    SyncUnsupported { device_id: Seq<char> },
    DirectionUnsupported { device_id: Seq<char> },
}

impl View for RgbError {
    type V = ErrorView;

    open spec fn view(&self) -> ErrorView {
        match self {
            RgbError::DeviceNotFound { device_id } => ErrorView::DeviceNotFound {
                device_id: device_id@,
            },
            RgbError::ZoneOutOfRange { zone, total_zones, fan_type, fan_count } => ErrorView::ZoneOutOfRange {
                zone: *zone,
                total_zones: *total_zones as nat,
                fan_type: *fan_type,
                fan_count: *fan_count,
            },
            RgbError::SyncUnsupported { device_id } => ErrorView::SyncUnsupported {
                device_id: device_id@,
            },
            RgbError::DirectionUnsupported { device_id } => ErrorView::DirectionUnsupported {
                device_id: device_id@,
            },
        }
    }
}

impl ErrorView {
    /// The error as a sentence.
    pub open spec fn message(self) -> Seq<char> {
        match self {
            ErrorView::DeviceNotFound { device_id } => "RGB device not found: "@ + device_id,
            ErrorView::ZoneOutOfRange { zone, total_zones, fan_type, fan_count } => "Zone "@ + dec(
                zone as nat,
            ) + " out of range (device has "@ + dec(total_zones) + " zones, fan_type="@
                + fan_type.spec_label() + ", fan_count="@ + dec(fan_count as nat) + ")"@,
            ErrorView::SyncUnsupported { device_id } => "Device "@ + device_id
                + " does not support MB RGB sync"@,
            ErrorView::DirectionUnsupported { device_id } => "Device "@ + device_id
                + " does not support fan direction"@,
        }
    }
}

impl RgbError {
    pub fn message(&self) -> (s: String)
        ensures
            s@ == self@.message(),
    {
        match self {
            RgbError::DeviceNotFound { device_id } => {
                let mut s = "RGB device not found: ".to_owned();
                s.append(device_id.as_str());
                s
            },
            RgbError::ZoneOutOfRange { zone, total_zones, fan_type, fan_count } => {
                let mut s = "Zone ".to_owned();
                push_dec(&mut s, *zone as u64);
                s.append(" out of range (device has ");
                push_dec(&mut s, *total_zones as u64);
                s.append(" zones, fan_type=");
                let label = fan_type.label();
                s.append(label.as_str());
                s.append(", fan_count=");
                push_dec(&mut s, *fan_count as u64);
                s.append(")");
                s
            },
            RgbError::SyncUnsupported { device_id } => {
                let mut s = "Device ".to_owned();
                s.append(device_id.as_str());
                s.append(" does not support MB RGB sync");
                s
            },
            RgbError::DirectionUnsupported { device_id } => {
                let mut s = "Device ".to_owned();
                s.append(device_id.as_str());
                s.append(" does not support fan direction");
                s
            },
        }
    }
}

/// The view of an answer that is no more than yes or no.
pub open spec fn unit_view(r: Result<(), RgbError>) -> Result<(), ErrorView> {
    match r {
        Ok(_) => Ok(()),
        Err(e) => Err(e@),
    }
}

/// The view of an answer.
pub open spec fn outcome_view(r: Result<Action, RgbError>) -> Result<ActionView, ErrorView> {
    match r {
        Ok(a) => Ok(a@),
        Err(e) => Err(e@),
    }
}

/// The views of a list of answers.
pub open spec fn outcomes_view(s: Seq<Result<Action, RgbError>>) -> Seq<
    Result<ActionView, ErrorView>,
> {
    s.map_values(|r: Result<Action, RgbError>| outcome_view(r))
}

/// The views of a list of actions.
pub open spec fn actions_view(s: Seq<Action>) -> Seq<ActionView> {
    s.map_values(|a: Action| a@)
}

/// Whether `i` is the first of the results that is an error.
pub open spec fn is_first_failure<E>(done: Seq<Result<(), E>>, i: int) -> bool {
    &&& 0 <= i < done.len()
    &&& done[i] is Err
    &&& forall|j: int| 0 <= j < i ==> (#[trigger] done[j]) is Ok
}

/// The place of the first error.
fn first_failure<E>(done: &Vec<Result<(), E>>) -> (r: Option<usize>)
    ensures
        match r {
            Some(i) => is_first_failure(done@, i as int),
            None => forall|i: int| 0 <= i < done@.len() ==> (#[trigger] done@[i]) is Ok,
        },
{
    let mut i: usize = 0;
    while i < done.len()
        invariant
            i <= done@.len(),
            forall|j: int| 0 <= j < i ==> (#[trigger] done@[j]) is Ok,
        decreases done@.len() - i,
    {
        if done[i].is_err() {
            return Some(i);
        }
        i += 1;
    }
    None
}

/// How many of the results are no errors.
pub open spec fn done_count<E>(done: Seq<Result<(), E>>) -> nat {
    done.filter(|r: Result<(), E>| r is Ok).len()
}

/// How many pieces of work have succeeded.
pub fn count_done<E>(done: &Vec<Result<(), E>>) -> (n: usize)
    ensures
        n == done_count(done@),
        n <= done@.len(),
{
    let ghost ok = |r: Result<(), E>| r is Ok;
    let mut n: usize = 0;
    let mut i: usize = 0;
    proof {
        reveal(Seq::filter);
        assert(done@.take(0).filter(ok).len() == 0);
    }
    while i < done.len()
        invariant
            ok == (|r: Result<(), E>| r is Ok),
            i <= done@.len(),
            n <= i,
            n == done@.take(i as int).filter(ok).len(),
        decreases done@.len() - i,
    {
        proof {
            reveal(Seq::filter);
            assert(done@.take(i + 1).drop_last() =~= done@.take(i as int));
            assert(done@.take(i + 1).last() == done@[i as int]);
        }
        if done[i].is_ok() {
            n += 1;
        }
        i += 1;
    }
    proof {
        assert(done@.take(i as int) =~= done@);
    }
    n
}

/// The result of a batch of which every part has been attempted: the first
/// error met. A refusal comes before anything is sent, so it is met first.
pub fn settle<E>(refused: Option<E>, done: Vec<Result<(), E>>) -> (r: Result<(), E>)
    ensures
        refused matches Some(e) ==> r == Err::<(), E>(e),
        refused is None && (forall|i: int| 0 <= i < done@.len() ==> (#[trigger] done@[i]) is Ok)
            ==> r is Ok,
        forall|i: int| refused is None && #[trigger] is_first_failure(done@, i) ==> r == done@[i],
{
    if let Some(e) = refused {
        return Err(e);
    }
    match first_failure(&done) {
        Some(i) => {
            proof {
                assert forall|k: int| #[trigger] is_first_failure(done@, k) implies k == i by {
                    if k < i {
                        assert(done@[k] is Ok);
                    } else if k > i {
                        assert(done@[i as int] is Ok);
                    }
                }
            }
            let mut done = done;
            done.remove(i)
        },
        None => Ok(()),
    }
}

} // verus!
