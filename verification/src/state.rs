//! The ADS state of a device.

use vstd::prelude::*;
use vstd::string::StringSliceAdditionalSpecFns;

verus! {

/// The ADS state of a device.
#[derive(Debug, Clone, Copy, PartialEq, Eq, Structural)]
#[allow(missing_docs)]
pub enum AdsState {
    Invalid,
    Idle,
    Reset,
    Init,
    Start,
    Run,
    Stop,
    SaveCfg,
    LoadCfg,
    PowerFail,
    PowerGood,
    Error,
    Shutdown,
    Suspend,
    Resume,
    Config,
    Reconfig,
    Stopping,
    Incompatible,
    Exception,
}

/// The state with the number `value`, if there is one.
pub open spec fn state_of(value: u16) -> Option<AdsState> {
    if value == 0 {
        Some(AdsState::Invalid)
    } else if value == 1 {
        Some(AdsState::Idle)
    } else if value == 2 {
        Some(AdsState::Reset)
    } else if value == 3 {
        Some(AdsState::Init)
    } else if value == 4 {
        Some(AdsState::Start)
    } else if value == 5 {
        Some(AdsState::Run)
    } else if value == 6 {
        Some(AdsState::Stop)
    } else if value == 7 {
        Some(AdsState::SaveCfg)
    } else if value == 8 {
        Some(AdsState::LoadCfg)
    } else if value == 9 {
        Some(AdsState::PowerFail)
    } else if value == 10 {
        Some(AdsState::PowerGood)
    } else if value == 11 {
        Some(AdsState::Error)
    } else if value == 12 {
        Some(AdsState::Shutdown)
    } else if value == 13 {
        Some(AdsState::Suspend)
    } else if value == 14 {
        Some(AdsState::Resume)
    } else if value == 15 {
        Some(AdsState::Config)
    } else if value == 16 {
        Some(AdsState::Reconfig)
    } else if value == 17 {
        Some(AdsState::Stopping)
    } else if value == 18 {
        Some(AdsState::Incompatible)
    } else if value == 19 {
        Some(AdsState::Exception)
    } else {
        None
    }
}

/// The byte `b`, in lower case if it is an ASCII capital.
pub open spec fn ascii_lower(b: u8) -> u8 {
    if 65 <= b <= 90 {
        (b + 32) as u8
    } else {
        b
    }
}

/// The bytes `s`, with the ASCII capitals in lower case.
pub open spec fn lowered(s: Seq<u8>) -> Seq<u8> {
    Seq::new(s.len(), |i: int| ascii_lower(s[i]))
}

/// The state that goes by the name `name`, which is in lower case.
pub open spec fn state_named(name: Seq<u8>) -> Option<AdsState> {
    if name == "invalid".spec_bytes() {
        Some(AdsState::Invalid)
    } else if name == "idle".spec_bytes() {
        Some(AdsState::Idle)
    } else if name == "reset".spec_bytes() {
        Some(AdsState::Reset)
    } else if name == "init".spec_bytes() {
        Some(AdsState::Init)
    } else if name == "start".spec_bytes() {
        Some(AdsState::Start)
    } else if name == "run".spec_bytes() {
        Some(AdsState::Run)
    } else if name == "stop".spec_bytes() {
        Some(AdsState::Stop)
    } else if name == "savecfg".spec_bytes() {
        Some(AdsState::SaveCfg)
    } else if name == "loadcfg".spec_bytes() {
        Some(AdsState::LoadCfg)
    } else if name == "powerfail".spec_bytes() {
        Some(AdsState::PowerFail)
    } else if name == "powergood".spec_bytes() {
        Some(AdsState::PowerGood)
    } else if name == "error".spec_bytes() {
        Some(AdsState::Error)
    } else if name == "shutdown".spec_bytes() {
        Some(AdsState::Shutdown)
    } else if name == "suspend".spec_bytes() {
        Some(AdsState::Suspend)
    } else if name == "resume".spec_bytes() {
        Some(AdsState::Resume)
    } else if name == "config".spec_bytes() {
        Some(AdsState::Config)
    } else if name == "reconfig".spec_bytes() {
        Some(AdsState::Reconfig)
    } else if name == "stopping".spec_bytes() {
        Some(AdsState::Stopping)
    } else if name == "incompatible".spec_bytes() {
        Some(AdsState::Incompatible)
    } else if name == "exception".spec_bytes() {
        Some(AdsState::Exception)
    } else {
        None
    }
}

/// Whether `s`, with its capitals in lower case, is `name`.
fn is_name(s: &[u8], name: &str) -> (r: bool)
    ensures
        r == (lowered(s@) == name.spec_bytes()),
{
    let n = name.as_bytes();
    if s.len() != n.len() {
        return false;
    }
    let mut i: usize = 0;
    while i < s.len()
        invariant
            i <= s.len(),
            s.len() == n.len(),
            n@ == name.spec_bytes(),
            forall|k: int| 0 <= k < i ==> ascii_lower(s@[k]) == n@[k],
        decreases s.len() - i,
    {
        let b = s[i];
        let low = if 65 <= b && b <= 90 {
            b + 32
        } else {
            b
        };
        if low != n[i] {
            assert(lowered(s@)[i as int] != name.spec_bytes()[i as int]);
            return false;
        }
        i += 1;
    }
    assert(lowered(s@) =~= name.spec_bytes());
    true
}

impl AdsState {
    /// The number of the state.
    pub open spec fn spec_code(self) -> u16 {
        match self {
            AdsState::Invalid => 0,
            AdsState::Idle => 1,
            AdsState::Reset => 2,
            AdsState::Init => 3,
            AdsState::Start => 4,
            AdsState::Run => 5,
            AdsState::Stop => 6,
            AdsState::SaveCfg => 7,
            AdsState::LoadCfg => 8,
            AdsState::PowerFail => 9,
            AdsState::PowerGood => 10,
            AdsState::Error => 11,
            AdsState::Shutdown => 12,
            AdsState::Suspend => 13,
            AdsState::Resume => 14,
            AdsState::Config => 15,
            AdsState::Reconfig => 16,
            AdsState::Stopping => 17,
            AdsState::Incompatible => 18,
            AdsState::Exception => 19,
        }
    }

    /// The number of the state.
    #[verifier::when_used_as_spec(spec_code)]
    pub fn code(self) -> (r: u16)
        ensures
            r == self.spec_code(),
    {
        match self {
            AdsState::Invalid => 0,
            AdsState::Idle => 1,
            AdsState::Reset => 2,
            AdsState::Init => 3,
            AdsState::Start => 4,
            AdsState::Run => 5,
            AdsState::Stop => 6,
            AdsState::SaveCfg => 7,
            AdsState::LoadCfg => 8,
            AdsState::PowerFail => 9,
            AdsState::PowerGood => 10,
            AdsState::Error => 11,
            AdsState::Shutdown => 12,
            AdsState::Suspend => 13,
            AdsState::Resume => 14,
            AdsState::Config => 15,
            AdsState::Reconfig => 16,
            AdsState::Stopping => 17,
            AdsState::Incompatible => 18,
            AdsState::Exception => 19,
        }
    }

    /// The state that goes by the name `s`, in capitals or not; an error for
    /// a name that stands for no state.
    pub fn from_str(s: &str) -> (r: Result<Self, &'static str>)
        ensures
            r == (match state_named(lowered(s.spec_bytes())) {
                Some(st) => Ok::<AdsState, &'static str>(st),
                None => Err::<AdsState, &'static str>("invalid state name"),
            }),
    {
        let b = s.as_bytes();
        if is_name(b, "invalid") {
            Ok(Self::Invalid)
        } else if is_name(b, "idle") {
            Ok(Self::Idle)
        } else if is_name(b, "reset") {
            Ok(Self::Reset)
        } else if is_name(b, "init") {
            Ok(Self::Init)
        } else if is_name(b, "start") {
            Ok(Self::Start)
        } else if is_name(b, "run") {
            Ok(Self::Run)
        } else if is_name(b, "stop") {
            Ok(Self::Stop)
        } else if is_name(b, "savecfg") {
            Ok(Self::SaveCfg)
        } else if is_name(b, "loadcfg") {
            Ok(Self::LoadCfg)
        } else if is_name(b, "powerfail") {
            Ok(Self::PowerFail)
        } else if is_name(b, "powergood") {
            Ok(Self::PowerGood)
        } else if is_name(b, "error") {
            Ok(Self::Error)
        } else if is_name(b, "shutdown") {
            Ok(Self::Shutdown)
        } else if is_name(b, "suspend") {
            Ok(Self::Suspend)
        } else if is_name(b, "resume") {
            Ok(Self::Resume)
        } else if is_name(b, "config") {
            Ok(Self::Config)
        } else if is_name(b, "reconfig") {
            Ok(Self::Reconfig)
        } else if is_name(b, "stopping") {
            Ok(Self::Stopping)
        } else if is_name(b, "incompatible") {
            Ok(Self::Incompatible)
        } else if is_name(b, "exception") {
            Ok(Self::Exception)
        } else {
            Err("invalid state name")
        }
    }

    /// Every state is the state of its number: converting the number of a
    /// state gives the state back.
    pub proof fn lemma_code_roundtrip(self)
        ensures
            self.spec_code() <= 19,
            state_of(self.spec_code()) == Some(self),
            <AdsState as vstd::std_specs::convert::TryFromSpec<u16>>::try_from_spec(self.spec_code())
                == Ok::<AdsState, &'static str>(self),
    {
    }

    /// A number stands for at most one state, which has that number; the
    /// numbers above 19 stand for none, and converting one of them fails.
    pub proof fn lemma_state_of(value: u16)
        ensures
            state_of(value) matches Some(s) ==> s.spec_code() == value,
            state_of(value) is Some <==> value <= 19,
            value > 19 ==> <AdsState as vstd::std_specs::convert::TryFromSpec<u16>>::try_from_spec(
                value,
            ) is Err,
    {
    }
}

/// The state with the number `value`; an error for a number that stands
/// for no state.
impl core::convert::TryFrom<u16> for AdsState {
    type Error = &'static str;

    fn try_from(value: u16) -> (r: Result<Self, &'static str>) {
        Ok(
            match value {
                0 => Self::Invalid,
                1 => Self::Idle,
                2 => Self::Reset,
                3 => Self::Init,
                4 => Self::Start,
                5 => Self::Run,
                6 => Self::Stop,
                7 => Self::SaveCfg,
                8 => Self::LoadCfg,
                9 => Self::PowerFail,
                10 => Self::PowerGood,
                11 => Self::Error,
                12 => Self::Shutdown,
                13 => Self::Suspend,
                14 => Self::Resume,
                15 => Self::Config,
                16 => Self::Reconfig,
                17 => Self::Stopping,
                18 => Self::Incompatible,
                19 => Self::Exception,
                _ => return Err("invalid state constant"),
            },
        )
    }
}

impl vstd::std_specs::convert::TryFromSpecImpl<u16> for AdsState {
    open spec fn obeys_try_from_spec() -> bool {
        true
    }

    open spec fn try_from_spec(value: u16) -> Result<Self, &'static str> {
        match state_of(value) {
            Some(s) => Ok(s),
            None => Err("invalid state constant"),
        }
    }
}

/// The state that goes by the name `s`, in capitals or not: see
/// [`AdsState::from_str`].
impl core::str::FromStr for AdsState {
    type Err = &'static str;

    fn from_str(s: &str) -> (r: Result<Self, Self::Err>)
        ensures
            r == (match state_named(lowered(s.spec_bytes())) {
                Some(st) => Ok::<AdsState, &'static str>(st),
                None => Err::<AdsState, &'static str>("invalid state name"),
            }),
    {
        AdsState::from_str(s)
    }
}

} // verus!
