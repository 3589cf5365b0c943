//! Network registration of the BG77 modem: its errors and its radio configuration.
use vstd::prelude::*;

use vstd::string::*;

use crate::at::{AtError, AtResponse, AtValue, CommandResponse, FromModem};
use crate::bounded::AtLine;
use crate::text::{digits_of, push_digits, str_eq};
use vstd::utf8::encode_utf8;
use crate::error::Error;

verus! {

/// Errors of network registration (`AT+CGATT`, `AT+CGACT`).
#[derive(Debug, Clone, Copy, PartialEq, Eq, Structural)]
pub enum RegistrationError {
    PdpContextFailed,
    PhoneFailure,
    NoConnectionToPhone,
    PhoneAdaptorLinkReserved,
    OperationNotAllowed,
    OperationNotSupported,
    PhSimPinRequired,
    PhFsimPinRequired,
    PhFsimPukRequired,
    SimNotInserted,
    SimPinRequired,
    SimPukRequired,
    SimFailure,
    SimBusy,
    SimWrong,
    IncorrectPassword,
    SimPin2Required,
    SimPuk2Required,
    MemoryFull,
    InvalidIndex,
    NotFound,
    MemoryFailure,
    TextStringTooLong,
    InvalidCharactersInTextString,
    DialStringTooLong,
    InvalidCharactersInDialString,
    NoNetworkService,
    NetworkTimeout,
    NetworkNotAllowedEmergencyOnly,
    NetworkPersonalizationPinRequired,
    NetworkPersonalizationPukRequired,
    NetworkSubsetPersonalizationPinRequired,
    NetworkSubsetPersonalizationPukRequired,
    ServiceProviderPersonalizationPinRequired,
    ServiceProviderPersonalizationPukRequired,
    CorporatePersonalizationPinRequired,
    CorporatePersonalizationPukRequired,
    AtErrorResponse,
    TimeoutError,
    Unknown(u16),
}

/// The registration error that a `+CME ERROR` code stands for.
pub open spec fn cme_registration_error(code: u16) -> RegistrationError {
    match code {
        0 => RegistrationError::PhoneFailure,
        1 => RegistrationError::NoConnectionToPhone,
        2 => RegistrationError::PhoneAdaptorLinkReserved,
        3 => RegistrationError::OperationNotAllowed,
        4 => RegistrationError::OperationNotSupported,
        5 => RegistrationError::PhSimPinRequired,
        6 => RegistrationError::PhFsimPinRequired,
        7 => RegistrationError::PhFsimPukRequired,
        10 => RegistrationError::SimNotInserted,
        11 => RegistrationError::SimPinRequired,
        12 => RegistrationError::SimPukRequired,
        13 => RegistrationError::SimFailure,
        14 => RegistrationError::SimBusy,
        15 => RegistrationError::SimWrong,
        16 => RegistrationError::IncorrectPassword,
        17 => RegistrationError::SimPin2Required,
        18 => RegistrationError::SimPuk2Required,
        20 => RegistrationError::MemoryFull,
        21 => RegistrationError::InvalidIndex,
        22 => RegistrationError::NotFound,
        23 => RegistrationError::MemoryFailure,
        24 => RegistrationError::TextStringTooLong,
        25 => RegistrationError::InvalidCharactersInTextString,
        26 => RegistrationError::DialStringTooLong,
        27 => RegistrationError::InvalidCharactersInDialString,
        30 => RegistrationError::NoNetworkService,
        31 => RegistrationError::NetworkTimeout,
        32 => RegistrationError::NetworkNotAllowedEmergencyOnly,
        40 => RegistrationError::NetworkPersonalizationPinRequired,
        41 => RegistrationError::NetworkPersonalizationPukRequired,
        42 => RegistrationError::NetworkSubsetPersonalizationPinRequired,
        43 => RegistrationError::NetworkSubsetPersonalizationPukRequired,
        44 => RegistrationError::ServiceProviderPersonalizationPinRequired,
        45 => RegistrationError::ServiceProviderPersonalizationPukRequired,
        46 => RegistrationError::CorporatePersonalizationPinRequired,
        47 => RegistrationError::CorporatePersonalizationPukRequired,
        _ => RegistrationError::Unknown(code),
    }
}

/// The registration error that an AT error stands for.
pub open spec fn registration_error_of(err: AtError) -> RegistrationError {
    match err {
        AtError::CmeError(code) => cme_registration_error(code),
        AtError::AtErrorResponse => RegistrationError::AtErrorResponse,
        AtError::TimeoutError => RegistrationError::TimeoutError,
        _ => RegistrationError::Unknown(999),
    }
}

impl RegistrationError {
    /// The registration error for an AT error: the meaning of a `+CME ERROR` code, `ERROR`,
    /// a timeout, or `Unknown(999)` for any other error.
    pub fn from_error(err: AtError) -> (r: RegistrationError)
        ensures
            r == registration_error_of(err),
    {
        match err {
            AtError::CmeError(code) => match code {
                0 => RegistrationError::PhoneFailure,
                1 => RegistrationError::NoConnectionToPhone,
                2 => RegistrationError::PhoneAdaptorLinkReserved,
                3 => RegistrationError::OperationNotAllowed,
                4 => RegistrationError::OperationNotSupported,
                5 => RegistrationError::PhSimPinRequired,
                6 => RegistrationError::PhFsimPinRequired,
                7 => RegistrationError::PhFsimPukRequired,
                10 => RegistrationError::SimNotInserted,
                11 => RegistrationError::SimPinRequired,
                12 => RegistrationError::SimPukRequired,
                13 => RegistrationError::SimFailure,
                14 => RegistrationError::SimBusy,
                15 => RegistrationError::SimWrong,
                16 => RegistrationError::IncorrectPassword,
                17 => RegistrationError::SimPin2Required,
                18 => RegistrationError::SimPuk2Required,
                20 => RegistrationError::MemoryFull,
                21 => RegistrationError::InvalidIndex,
                22 => RegistrationError::NotFound,
                23 => RegistrationError::MemoryFailure,
                24 => RegistrationError::TextStringTooLong,
                25 => RegistrationError::InvalidCharactersInTextString,
                26 => RegistrationError::DialStringTooLong,
                27 => RegistrationError::InvalidCharactersInDialString,
                30 => RegistrationError::NoNetworkService,
                31 => RegistrationError::NetworkTimeout,
                32 => RegistrationError::NetworkNotAllowedEmergencyOnly,
                40 => RegistrationError::NetworkPersonalizationPinRequired,
                41 => RegistrationError::NetworkPersonalizationPukRequired,
                42 => RegistrationError::NetworkSubsetPersonalizationPinRequired,
                43 => RegistrationError::NetworkSubsetPersonalizationPukRequired,
                44 => RegistrationError::ServiceProviderPersonalizationPinRequired,
                45 => RegistrationError::ServiceProviderPersonalizationPukRequired,
                46 => RegistrationError::CorporatePersonalizationPinRequired,
                47 => RegistrationError::CorporatePersonalizationPukRequired,
                code => RegistrationError::Unknown(code),
            },
            AtError::AtErrorResponse => RegistrationError::AtErrorResponse,
            AtError::TimeoutError => RegistrationError::TimeoutError,
            _ => RegistrationError::Unknown(999),
        }
    }
}

/// Radio access technology.
#[derive(Debug, Clone, Copy, PartialEq, Eq, Structural)]
pub enum RAT {
    /// LTE-M.
    Ltem,
    /// NB-IoT.
    NbIot,
    /// Both LTE-M and NB-IoT.
    LtemNbIot,
}

impl Default for RAT {
    fn default() -> (r: RAT)
        ensures
            r == RAT::LtemNbIot,
    {
        RAT::LtemNbIot
    }
}

/// Bit `k` of `m` is set.
pub open spec fn has_bit(m: u128, k: u32) -> bool {
    (m >> k) & 1u128 == 1u128
}

/// Band `k + 1` is among the first `n` entries of `bands`.
pub open spec fn band_listed(bands: Seq<u32>, n: int, k: u32) -> bool {
    exists|j: int| 0 <= j < n && bands[j] == k + 1
}

/// The mask of the bands listed in `bands`: bit `k` is set exactly when band `k + 1` is listed.
pub open spec fn is_band_mask(m: u128, bands: Seq<u32>) -> bool {
    forall|k: u32| k < 128 ==> (#[trigger] has_bit(m, k) <==> band_listed(bands, bands.len() as int, k))
}

proof fn lemma_bit_or(m: u128, j: u32, k: u32)
    requires
        j < 128,
        k < 128,
    ensures
        has_bit(m | (1u128 << j), k) <==> (has_bit(m, k) || k == j),
{
    assert(((m | (1u128 << j)) >> k) & 1u128 == 1u128 <==> (((m >> k) & 1u128 == 1u128) || k == j))
        by (bit_vector)
        requires
            j < 128,
            k < 128,
    ;
}

proof fn lemma_no_bits(k: u32)
    requires
        k < 128,
    ensures
        !has_bit(0u128, k),
{
    assert((0u128 >> k) & 1u128 == 0u128) by (bit_vector);
}

proof fn lemma_low_bit(a: u128)
    ensures
        a & 1u128 == 0u128 || a & 1u128 == 1u128,
{
    assert(a & 1u128 == 0u128 || a & 1u128 == 1u128) by (bit_vector);
}

proof fn lemma_shift_step(a: u128, n: u32)
    requires
        n < 128,
    ensures
        a >> n == ((a >> ((n + 1) as u32)) << 1u32) | ((a >> n) & 1u128),
{
    assert(a >> n == ((a >> ((n + 1) as u32)) << 1u32) | ((a >> n) & 1u128)) by (bit_vector)
        requires
            n < 128,
    ;
}

/// Two masks that agree on bits `n` and above agree once shifted by `n`.
proof fn lemma_same_high_bits(m1: u128, m2: u128, n: u32)
    requires
        n <= 128,
        forall|k: u32| k < 128 ==> (#[trigger] has_bit(m1, k) <==> has_bit(m2, k)),
    ensures
        m1 >> n == m2 >> n,
    decreases 128 - n,
{
    if n == 128 {
        assert(m1 >> 128u32 == 0u128 && m2 >> 128u32 == 0u128) by (bit_vector);
    } else {
        lemma_same_high_bits(m1, m2, (n + 1) as u32);
        lemma_shift_step(m1, n);
        lemma_shift_step(m2, n);
        assert(has_bit(m1, n) <==> has_bit(m2, n));
        lemma_low_bit(m1 >> n);
        lemma_low_bit(m2 >> n);
    }
}

/// The band mask is fixed by which valid bands are listed: neither their order, nor repeats,
/// nor numbers outside 1 to 128 change it. So setting the bands replaces the previous mask
/// whatever it was, and setting them twice to the same list is setting them once.
pub proof fn lemma_band_mask_determined(m1: u128, xs: Seq<u32>, m2: u128, ys: Seq<u32>)
    requires
        is_band_mask(m1, xs),
        is_band_mask(m2, ys),
        forall|b: u32| 1 <= b <= 128 ==> (xs.contains(b) <==> ys.contains(b)),
    ensures
        m1 == m2,
{
    assert forall|k: u32| k < 128 implies (#[trigger] has_bit(m1, k) <==> has_bit(m2, k)) by {
        let b = (k + 1) as u32;
        if band_listed(xs, xs.len() as int, k) {
            let j = choose|j: int| 0 <= j < xs.len() && xs[j] == k + 1;
            assert(xs.contains(b));
            let i = choose|i: int| 0 <= i < ys.len() && ys[i] == b;
            assert(band_listed(ys, ys.len() as int, k));
        }
        if band_listed(ys, ys.len() as int, k) {
            let j = choose|j: int| 0 <= j < ys.len() && ys[j] == k + 1;
            assert(ys.contains(b));
            let i = choose|i: int| 0 <= i < xs.len() && xs[i] == b;
            assert(band_listed(xs, xs.len() as int, k));
        }
    }
    lemma_same_high_bits(m1, m2, 0);
    assert(m1 >> 0u32 == m1 && m2 >> 0u32 == m2) by (bit_vector);
}

/// The mask of the valid bands (1 to 128) in `bands`.
fn band_mask(bands: &[u32]) -> (r: u128)
    ensures
        is_band_mask(r, bands@),
{
    let mut mask: u128 = 0;
    let mut i: usize = 0;
    proof {
        assert forall|k: u32| k < 128 implies (#[trigger] has_bit(mask, k) <==> band_listed(bands@, 0, k)) by {
            lemma_no_bits(k);
        }
    }
    while i < bands.len()
        invariant
            i <= bands@.len(),
            forall|k: u32| k < 128 ==> (#[trigger] has_bit(mask, k) <==> band_listed(bands@, i as int, k)),
        decreases bands@.len() - i,
    {
        let band = bands[i];
        let ghost old_mask = mask;
        if band > 0 && band <= 128 {
            mask = mask | (1u128 << (band - 1));
        }
        proof {
            assert forall|k: u32| k < 128 implies (#[trigger] has_bit(mask, k) <==> band_listed(bands@, i + 1, k)) by {
                if band > 0 && band <= 128 {
                    lemma_bit_or(old_mask, (band - 1) as u32, k);
                }
                if band_listed(bands@, i + 1, k) && !band_listed(bands@, i as int, k) {
                    assert(bands@[i as int] == k + 1);
                }
                if band_listed(bands@, i as int, k) {
                    let j = choose|j: int| 0 <= j < i && bands@[j] == k + 1;
                    assert(0 <= j < i + 1 && bands@[j] == k + 1);
                }
                if k + 1 == band {
                    assert(0 <= i < i + 1 && bands@[i as int] == k + 1);
                }
            }
        }
        i = i + 1;
    }
    proof {
        assert forall|k: u32| k < 128 implies (#[trigger] has_bit(mask, k) <==> band_listed(bands@, bands@.len() as int, k)) by {
        }
    }
    mask
}

/// The LTE bands that the modem may use.
#[derive(Debug, Clone, Copy, PartialEq, Eq, Structural)]
pub struct LteBands {
    /// LTE-M bands: bit `n` stands for band `n + 1`.
    pub ltem: u128,
    /// NB-IoT bands: bit `n` stands for band `n + 1`.
    pub nbiot: u128,
}

impl Default for LteBands {
    fn default() -> (r: LteBands)
        ensures
            r.ltem == 0 && r.nbiot == 0,
    {
        LteBands { ltem: 0, nbiot: 0 }
    }
}

impl LteBands {
    /// Sets the LTE-M bands to the given band numbers (20 for B20), replacing the previous
    /// ones; numbers outside 1 to 128 are ignored.
    pub fn set_ltem_bands(&mut self, bands: &[u32])
        ensures
            is_band_mask(final(self).ltem, bands@),
            final(self).nbiot == old(self).nbiot,
    {
        self.ltem = band_mask(bands);
    }

    /// Sets the NB-IoT bands to the given band numbers (20 for B20), replacing the previous
    /// ones; numbers outside 1 to 128 are ignored.
    pub fn set_nbiot_bands(&mut self, bands: &[u32])
        ensures
            is_band_mask(final(self).nbiot, bands@),
            final(self).ltem == old(self).ltem,
    {
        self.nbiot = band_mask(bands);
    }
}

/// Time for the network to activate, in milliseconds.
pub const ACTIVATION_TIMEOUT_MS: u64 = 150_000;

/// Work for the caller of a modem procedure.
#[derive(Debug, PartialEq, Eq)]
pub enum ModemAction {
    /// Send `AT` and the command, and hand back the answer; wait for a further answer this
    /// long when a time is given.
    Call(String, Option<u64>),
    /// Send `AT` and the command, and hand back the answer that comes within this time.
    LongCall(String, u64),
    /// Wait this long, then resume.
    Sleep(u64),
    /// Drive the power pin of the modem high (`true`) or low, then resume.
    SetPin(bool),
    /// Hand back the lines that the modem sends within this time.
    Read(u64),
    /// Write the payload of the message, and hand back the answer that begins with the given
    /// prefix; wait for a further answer this long when a time is given.
    SendPayload(String, Option<u64>),
    /// The procedure is over, with this outcome.
    Finish(Result<(), Error>),
}

/// What a `ModemAction` asks for, with its command as characters.
pub enum Action {
    Call(Seq<char>, Option<u64>),
    LongCall(Seq<char>, u64),
    Sleep(u64),
    SetPin(bool),
    Read(u64),
    SendPayload(Seq<char>, Option<u64>),
    Finish(Result<(), Error>),
}

impl View for ModemAction {
    type V = Action;

    open spec fn view(&self) -> Action {
        match self {
            ModemAction::Call(c, t) => Action::Call(c@, *t),
            ModemAction::LongCall(c, t) => Action::LongCall(c@, *t),
            ModemAction::Sleep(t) => Action::Sleep(*t),
            ModemAction::SetPin(h) => Action::SetPin(*h),
            ModemAction::Read(t) => Action::Read(*t),
            ModemAction::SendPayload(p, t) => Action::SendPayload(p@, *t),
            ModemAction::Finish(r) => Action::Finish(*r),
        }
    }
}

/// `a` sends the command `cmd` with the further wait `t`.
pub open spec fn is_call(a: ModemAction, cmd: Seq<char>, t: Option<u64>) -> bool {
    a@ == Action::Call(cmd, t)
}

/// `a` sends the command `cmd` and waits at most `t`.
pub open spec fn is_long_call(a: ModemAction, cmd: Seq<char>, t: u64) -> bool {
    a@ == Action::LongCall(cmd, t)
}

fn call(cmd: &str, t: Option<u64>) -> (a: ModemAction)
    ensures
        is_call(a, cmd@, t),
{
    ModemAction::Call(String::from_str(cmd), t)
}

fn long_call(cmd: &str, t: u64) -> (a: ModemAction)
    ensures
        is_long_call(a, cmd@, t),
{
    ModemAction::LongCall(String::from_str(cmd), t)
}

/// Where a network registration stands.
#[derive(Debug, Clone, Copy, PartialEq, Eq, Structural)]
pub enum RegistrationState {
    /// Not begun.
    Start,
    /// Echo was switched off before a forced detach.
    Echo,
    /// The modem was detached.
    Detached,
    /// The pause after the detach is over.
    Paused,
    /// The packet data context was deactivated.
    Deactivated,
    /// The attachment state was asked for.
    AttachQuery,
    /// The modem was asked to attach.
    Attaching,
    /// The activation state was asked for; the flag says whether the modem was attached.
    ActivationQuery(bool),
    /// The modem was asked to activate the context.
    Activating,
    /// The activation state was asked for again.
    ActivationRetry,
    /// Over.
    Done,
}

/// A network registration: attach to the network (after a forced detach when asked) and
/// activate the packet data context.
#[derive(Debug, Clone, Copy, PartialEq, Eq, Structural)]
pub struct Registration {
    pub state: RegistrationState,
    pub force_reattach: bool,
}

/// The first value of the answer parses as a `u8` equal to `v`.
pub open spec fn first_value_is(resp: AtResponse, v: nat) -> bool {
    resp.picked(None::<(u8, usize)>, seq![0usize]) matches Ok(w) && parse_unsigned_u8(w[0]) == Some(v)
}

/// What a `u8` parse of `s` gives.
pub open spec fn parse_unsigned_u8(s: Seq<char>) -> Option<nat> {
    crate::text::parse_unsigned(s, 10, 0xff)
}

/// The error that reading a `u8` at index 0 of the answer gives, if any.
pub open spec fn first_value_error(resp: AtResponse) -> Option<AtError> {
    match resp.picked(None::<(u8, usize)>, seq![0usize]) {
        Err(e) => Some(e),
        Ok(w) => if parse_unsigned_u8(w[0]) is Some {
            None
        } else {
            Some(AtError::ParseError)
        },
    }
}

/// The filter of the `+CGACT?` answer: the line of context 1.
pub open spec fn context_filter() -> Option<(u8, usize)> {
    Some((1u8, 0usize))
}

/// The error that reading the state of context 1 in a `+CGACT?` answer gives, if any.
pub open spec fn activation_error(resp: AtResponse) -> Option<AtError> {
    match resp.picked(context_filter(), seq![0usize, 1usize]) {
        Err(e) => Some(e),
        Ok(w) => if parse_unsigned_u8(w[0]) is Some && parse_unsigned_u8(w[1]) is Some {
            None
        } else {
            Some(AtError::ParseError)
        },
    }
}

/// The state of context 1 in a `+CGACT?` answer, when it can be read.
pub open spec fn activation_state(resp: AtResponse) -> nat {
    parse_unsigned_u8(resp.picked(context_filter(), seq![0usize, 1usize])->Ok_0[1])->0
}

impl Registration {
    /// A registration that has not begun.
    pub fn new(force_reattach: bool) -> (r: Registration)
        ensures
            r == (Registration { state: RegistrationState::Start, force_reattach }),
    {
        Registration { state: RegistrationState::Start, force_reattach }
    }

    /// The answer handed to `step` can be read without failing on the way.
    pub open spec fn reply_ok(self, reply: Result<AtResponse, AtError>) -> bool {
        match reply {
            Err(_) => true,
            Ok(resp) => match self.state {
                RegistrationState::AttachQuery => resp.pick_ok(None::<(u8, usize)>, seq![0usize]),
                RegistrationState::ActivationQuery(_) | RegistrationState::ActivationRetry => resp.pick_ok(
                    context_filter(),
                    seq![0usize, 1usize],
                ),
                _ => true,
            },
        }
    }

    /// Whether `step` can take `reply`.
    pub fn reply_is_safe(&self, reply: &Result<AtResponse, AtError>) -> (r: bool)
        ensures
            r == self.reply_ok(*reply),
    {
        match reply {
            Err(_) => true,
            Ok(resp) => match self.state {
                RegistrationState::AttachQuery => {
                    let idx: [usize; 1] = [0];
                    assert(idx@ =~= seq![0usize]);
                    resp.pick_is_safe::<u8>(&None, idx.as_slice())
                },
                RegistrationState::ActivationQuery(_) | RegistrationState::ActivationRetry => {
                    let idx: [usize; 2] = [0, 1];
                    assert(idx@ =~= seq![0usize, 1usize]);
                    resp.pick_is_safe::<u8>(&Some((1u8, 0usize)), idx.as_slice())
                },
                _ => true,
            },
        }
    }

    /// Begins the registration: switch echo off before a forced detach, or ask whether the
    /// modem is attached.
    pub fn start(&mut self) -> (a: ModemAction)
        requires
            old(self).state is Start,
        ensures
            old(self).force_reattach ==> is_call(a, "E0"@, None) && final(self).state
                == RegistrationState::Echo,
            !old(self).force_reattach ==> is_call(a, "+CGATT?"@, None) && final(self).state
                == RegistrationState::AttachQuery,
            final(self).force_reattach == old(self).force_reattach,
    {
        if self.force_reattach {
            self.state = RegistrationState::Echo;
            call("E0", None)
        } else {
            self.state = RegistrationState::AttachQuery;
            call("+CGATT?", None)
        }
    }

    /// Resumes after the pause that follows a forced detach: deactivate the context.
    pub fn resume(&mut self) -> (a: ModemAction)
        requires
            old(self).state is Detached,
        ensures
            is_long_call(a, "+CGACT=0,1"@, ACTIVATION_TIMEOUT_MS),
            final(self).state == RegistrationState::Deactivated,
            final(self).force_reattach == old(self).force_reattach,
    {
        self.state = RegistrationState::Deactivated;
        long_call("+CGACT=0,1", ACTIVATION_TIMEOUT_MS)
    }

    /// Takes the answer to the last command and decides what comes next.
    ///
    /// After a forced detach the modem counts as not attached; a modem that is not attached is
    /// asked to attach; then the state of context 1 is asked, and an inactive context is
    /// activated and asked again. Errors of the attach and activate commands become
    /// registration errors; a context still inactive gives `PdpContextFailed`.
    pub fn step(&mut self, reply: Result<AtResponse, AtError>) -> (a: ModemAction)
        requires
            !(old(self).state is Start || old(self).state is Detached || old(self).state is Done),
            old(self).reply_ok(reply),
        ensures
            final(self).force_reattach == old(self).force_reattach,
            match old(self).state {
                RegistrationState::Echo => match reply {
                    Err(e) => a == ModemAction::Finish(Err(Error::At(e))) && final(self).state
                        == RegistrationState::Done,
                    Ok(_) => is_long_call(a, "+CGATT=0"@, ACTIVATION_TIMEOUT_MS) && final(self).state == RegistrationState::Paused,
                },
                RegistrationState::Paused => a == ModemAction::Sleep(2000) && final(self).state
                    == RegistrationState::Detached,
                RegistrationState::Deactivated => is_long_call(
                    a,
                    "+CGATT=1"@,
                    (ACTIVATION_TIMEOUT_MS + 1000) as u64,
                ) && final(self).state == RegistrationState::Attaching,
                RegistrationState::AttachQuery => match reply {
                    Err(e) => a == ModemAction::Finish(Err(Error::At(e))) && final(self).state
                        == RegistrationState::Done,
                    Ok(resp) => match first_value_error(resp) {
                        Some(e) => a == ModemAction::Finish(Err(Error::At(e))) && final(self).state
                            == RegistrationState::Done,
                        None => if first_value_is(resp, 1) {
                            is_call(a, "+CGACT?"@, None) && final(self).state
                                == RegistrationState::ActivationQuery(true)
                        } else {
                            is_long_call(a, "+CGATT=1"@, (ACTIVATION_TIMEOUT_MS + 1000) as u64)
                                && final(self).state == RegistrationState::Attaching
                        },
                    },
                },
                RegistrationState::Attaching => match reply {
                    Err(e) => a == ModemAction::Finish(
                        Err(Error::Registration(registration_error_of(e))),
                    ) && final(self).state == RegistrationState::Done,
                    Ok(_) => is_call(a, "+CGACT?"@, None) && final(self).state
                        == RegistrationState::ActivationQuery(false),
                },
                RegistrationState::ActivationQuery(_) => match reply {
                    Err(e) => a == ModemAction::Finish(Err(Error::At(e))) && final(self).state
                        == RegistrationState::Done,
                    Ok(resp) => match activation_error(resp) {
                        Some(e) => a == ModemAction::Finish(Err(Error::At(e))) && final(self).state
                            == RegistrationState::Done,
                        None => if activation_state(resp) != 1 {
                            is_long_call(a, "+CGACT=1,1"@, ACTIVATION_TIMEOUT_MS) && final(self).state == RegistrationState::Activating
                        } else {
                            a == ModemAction::Finish(Ok(())) && final(self).state
                                == RegistrationState::Done
                        },
                    },
                },
                RegistrationState::Activating => match reply {
                    Err(e) => a == ModemAction::Finish(
                        Err(Error::Registration(registration_error_of(e))),
                    ) && final(self).state == RegistrationState::Done,
                    Ok(_) => is_call(a, "+CGACT?"@, None) && final(self).state
                        == RegistrationState::ActivationRetry,
                },
                RegistrationState::ActivationRetry => final(self).state == RegistrationState::Done
                    && match reply {
                    Err(e) => a == ModemAction::Finish(
                        Err(Error::Registration(registration_error_of(e))),
                    ),
                    Ok(resp) => if activation_error(resp) is None && activation_state(resp) == 1 {
                        a == ModemAction::Finish(Ok(()))
                    } else {
                        a == ModemAction::Finish(
                            Err(Error::Registration(RegistrationError::PdpContextFailed)),
                        )
                    },
                },
                _ => true,
            },
    {
        match self.state {
            RegistrationState::Echo => match reply {
                Err(e) => {
                    self.state = RegistrationState::Done;
                    ModemAction::Finish(Err(Error::At(e)))
                },
                Ok(_) => {
                    self.state = RegistrationState::Paused;
                    long_call("+CGATT=0", ACTIVATION_TIMEOUT_MS)
                },
            },
            RegistrationState::Paused => {
                self.state = RegistrationState::Detached;
                ModemAction::Sleep(2000)
            },
            RegistrationState::Deactivated => {
                self.state = RegistrationState::Attaching;
                long_call("+CGATT=1", ACTIVATION_TIMEOUT_MS + 1000)
            },
            RegistrationState::AttachQuery => match reply {
                Err(e) => {
                    self.state = RegistrationState::Done;
                    ModemAction::Finish(Err(Error::At(e)))
                },
                Ok(resp) => {
                    let idx: [usize; 1] = [0];
                    assert(idx@ =~= seq![0usize]);
                    match resp.parse1::<u8>(idx) {
                        Err(e) => {
                            self.state = RegistrationState::Done;
                            ModemAction::Finish(Err(Error::At(e)))
                        },
                        Ok(att_state) => {
                            if att_state == 1 {
                                self.state = RegistrationState::ActivationQuery(true);
                                call("+CGACT?", None)
                            } else {
                                self.state = RegistrationState::Attaching;
                                long_call("+CGATT=1", ACTIVATION_TIMEOUT_MS + 1000)
                            }
                        },
                    }
                },
            },
            RegistrationState::Attaching => match reply {
                Err(e) => {
                    self.state = RegistrationState::Done;
                    ModemAction::Finish(Err(Error::Registration(RegistrationError::from_error(e))))
                },
                Ok(_) => {
                    self.state = RegistrationState::ActivationQuery(false);
                    call("+CGACT?", None)
                },
            },
            RegistrationState::ActivationQuery(_) => match reply {
                Err(e) => {
                    self.state = RegistrationState::Done;
                    ModemAction::Finish(Err(Error::At(e)))
                },
                Ok(resp) => {
                    let idx: [usize; 2] = [0, 1];
                    assert(idx@ =~= seq![0usize, 1usize]);
                    match resp.parse2::<u8, u8>(idx, Some(1u8)) {
                        Err(e) => {
                            self.state = RegistrationState::Done;
                            ModemAction::Finish(Err(Error::At(e)))
                        },
                        Ok((_, stat)) => {
                            if stat != 1 {
                                self.state = RegistrationState::Activating;
                                long_call("+CGACT=1,1", ACTIVATION_TIMEOUT_MS)
                            } else {
                                self.state = RegistrationState::Done;
                                ModemAction::Finish(Ok(()))
                            }
                        },
                    }
                },
            },
            RegistrationState::Activating => match reply {
                Err(e) => {
                    self.state = RegistrationState::Done;
                    ModemAction::Finish(Err(Error::Registration(RegistrationError::from_error(e))))
                },
                Ok(_) => {
                    self.state = RegistrationState::ActivationRetry;
                    call("+CGACT?", None)
                },
            },
            RegistrationState::ActivationRetry => {
                self.state = RegistrationState::Done;
                match reply {
                    Err(e) => ModemAction::Finish(
                        Err(Error::Registration(RegistrationError::from_error(e))),
                    ),
                    Ok(resp) => {
                        let idx: [usize; 2] = [0, 1];
                        assert(idx@ =~= seq![0usize, 1usize]);
                        let stat_retry: u8 = match resp.parse2::<u8, u8>(idx, Some(1u8)) {
                            Ok((_, s)) => s,
                            Err(_) => 0,
                        };
                        if stat_retry != 1 {
                            ModemAction::Finish(
                                Err(Error::Registration(RegistrationError::PdpContextFailed)),
                            )
                        } else {
                            ModemAction::Finish(Ok(()))
                        }
                    },
                }
            },
            _ => ModemAction::Finish(Ok(())),
        }
    }
}

/// Where turning the modem on stands.
#[derive(Debug, Clone, Copy, PartialEq, Eq, Structural)]
pub enum TurnOnState {
    Start,
    /// `E0` was sent to see whether the modem answers.
    Probe,
    /// The power pin was driven low.
    PinLow,
    /// The first pause is over.
    Paused,
    /// The power pin was driven high.
    PinHigh,
    /// The second pause is over.
    Pressed,
    /// The power pin was released.
    Released,
    /// The lines after power-on were read.
    Booted,
    /// `+CFUN=1,0` was sent.
    FullFunction,
    /// The lines after `+CFUN` were read.
    Ready,
    /// `E0` was sent again.
    Echo,
    Done,
}

/// Turning the modem on: when it does not answer `E0`, press its power key (low for 1 s, high
/// for 2 s, low), read what it says, switch on full functionality, read again and switch echo
/// off.
#[derive(Debug, Clone, Copy, PartialEq, Eq, Structural)]
pub struct TurnOn {
    pub state: TurnOnState,
}

impl TurnOn {
    /// Turning on has not begun.
    pub fn new() -> (r: TurnOn)
        ensures
            r.state == TurnOnState::Start,
    {
        TurnOn { state: TurnOnState::Start }
    }

    /// Begins: see whether the modem answers.
    pub fn start(&mut self) -> (a: ModemAction)
        requires
            old(self).state is Start,
        ensures
            is_call(a, "E0"@, None),
            final(self).state == TurnOnState::Probe,
    {
        self.state = TurnOnState::Probe;
        call("E0", None)
    }

    /// Resumes after driving the power pin or a pause.
    pub fn resume(&mut self) -> (a: ModemAction)
        requires
            old(self).state is PinLow || old(self).state is Paused || old(self).state is PinHigh
                || old(self).state is Pressed || old(self).state is Released,
        ensures
            match old(self).state {
                TurnOnState::PinLow => a == ModemAction::Sleep(1000) && final(self).state
                    == TurnOnState::Paused,
                TurnOnState::Paused => a == ModemAction::SetPin(true) && final(self).state
                    == TurnOnState::PinHigh,
                TurnOnState::PinHigh => a == ModemAction::Sleep(2000) && final(self).state
                    == TurnOnState::Pressed,
                TurnOnState::Pressed => a == ModemAction::SetPin(false) && final(self).state
                    == TurnOnState::Released,
                _ => a == ModemAction::Read(1000) && final(self).state == TurnOnState::Booted,
            },
    {
        match self.state {
            TurnOnState::PinLow => {
                self.state = TurnOnState::Paused;
                ModemAction::Sleep(1000)
            },
            TurnOnState::Paused => {
                self.state = TurnOnState::PinHigh;
                ModemAction::SetPin(true)
            },
            TurnOnState::PinHigh => {
                self.state = TurnOnState::Pressed;
                ModemAction::Sleep(2000)
            },
            TurnOnState::Pressed => {
                self.state = TurnOnState::Released;
                ModemAction::SetPin(false)
            },
            _ => {
                self.state = TurnOnState::Booted;
                ModemAction::Read(1000)
            },
        }
    }

    /// Takes the answer to the last command or read.
    ///
    /// A modem that answers the probe is on. After the power key, a failed read or command ends
    /// turning on with its error.
    pub fn step(&mut self, reply: Result<AtResponse, AtError>) -> (a: ModemAction)
        requires
            old(self).state is Probe || old(self).state is Booted || old(self).state is FullFunction
                || old(self).state is Ready || old(self).state is Echo,
        ensures
            match old(self).state {
                TurnOnState::Probe => match reply {
                    Ok(_) => a == ModemAction::Finish(Ok(())) && final(self).state == TurnOnState::Done,
                    Err(_) => a == ModemAction::SetPin(false) && final(self).state
                        == TurnOnState::PinLow,
                },
                _ => match reply {
                    Err(e) => a == ModemAction::Finish(Err(Error::At(e))) && final(self).state
                        == TurnOnState::Done,
                    Ok(_) => match old(self).state {
                        TurnOnState::Booted => is_long_call(a, "+CFUN=1,0"@, 15_000)
                            && final(self).state == TurnOnState::FullFunction,
                        TurnOnState::FullFunction => a == ModemAction::Read(5000) && final(self).state
                            == TurnOnState::Ready,
                        TurnOnState::Ready => is_call(a, "E0"@, None) && final(self).state
                            == TurnOnState::Echo,
                        _ => a == ModemAction::Finish(Ok(())) && final(self).state
                            == TurnOnState::Done,
                    },
                },
            },
    {
        if self.state == TurnOnState::Probe {
            return match reply {
                Ok(_) => {
                    self.state = TurnOnState::Done;
                    ModemAction::Finish(Ok(()))
                },
                Err(_) => {
                    self.state = TurnOnState::PinLow;
                    ModemAction::SetPin(false)
                },
            };
        }
        match reply {
            Err(e) => {
                self.state = TurnOnState::Done;
                ModemAction::Finish(Err(Error::At(e)))
            },
            Ok(_) => match self.state {
                TurnOnState::Booted => {
                    self.state = TurnOnState::FullFunction;
                    long_call("+CFUN=1,0", 15_000)
                },
                TurnOnState::FullFunction => {
                    self.state = TurnOnState::Ready;
                    ModemAction::Read(5000)
                },
                TurnOnState::Ready => {
                    self.state = TurnOnState::Echo;
                    call("E0", None)
                },
                _ => {
                    self.state = TurnOnState::Done;
                    ModemAction::Finish(Ok(()))
                },
            },
        }
    }
}

/// The configuration of the modem.
#[derive(Debug, Clone, PartialEq, Eq)]
pub struct ModemConfig {
    /// The access point name; at most 30 bytes.
    pub apn: String,
    /// The radio access technology.
    pub rat: RAT,
    /// The LTE bands.
    pub bands: LteBands,
}

impl Default for ModemConfig {
    fn default() -> (r: ModemConfig)
        ensures
            r.apn@ == "internet.iot"@,
            r.rat == RAT::LtemNbIot,
            is_band_mask(r.bands.ltem, seq![20u32]),
            is_band_mask(r.bands.nbiot, seq![20u32]),
    {
        let mut bands = LteBands::default();
        let b: [u32; 1] = [20];
        assert(b@ =~= seq![20u32]);
        bands.set_ltem_bands(b.as_slice());
        bands.set_nbiot_bands(b.as_slice());
        ModemConfig { apn: String::from_str("internet.iot"), rat: RAT::LtemNbIot, bands }
    }
}

/// The network scan sequence and the IoT operating mode for a radio access technology.
pub open spec fn rat_settings(rat: RAT) -> (Seq<char>, nat) {
    match rat {
        RAT::Ltem => ("02"@, 0),
        RAT::NbIot => ("03"@, 1),
        RAT::LtemNbIot => ("00"@, 2),
    }
}

/// The radio access technology selects its commands: LTE-M scans LTE-M only (`02`) in LTE-M
/// mode (`0`), NB-IoT scans NB-IoT only (`03`) in NB-IoT mode (`1`), and both scan automatically
/// (`00`) in the mode of both (`2`).
pub proof fn lemma_rat_commands()
    ensures
        scanseq_command(RAT::Ltem) == "+QCFG=\"nwscanseq\",02"@,
        iotopmode_command(RAT::Ltem) == "+QCFG=\"iotopmode\",0,1"@,
        scanseq_command(RAT::NbIot) == "+QCFG=\"nwscanseq\",03"@,
        iotopmode_command(RAT::NbIot) == "+QCFG=\"iotopmode\",1,1"@,
        scanseq_command(RAT::LtemNbIot) == "+QCFG=\"nwscanseq\",00"@,
        iotopmode_command(RAT::LtemNbIot) == "+QCFG=\"iotopmode\",2,1"@,
{
    reveal_strlit("+QCFG=\"nwscanseq\",");
    reveal_strlit("+QCFG=\"iotopmode\",");
    reveal_strlit(",1");
    reveal_strlit("02");
    reveal_strlit("03");
    reveal_strlit("00");
    reveal_strlit("+QCFG=\"nwscanseq\",02");
    reveal_strlit("+QCFG=\"nwscanseq\",03");
    reveal_strlit("+QCFG=\"nwscanseq\",00");
    reveal_strlit("+QCFG=\"iotopmode\",0,1");
    reveal_strlit("+QCFG=\"iotopmode\",1,1");
    reveal_strlit("+QCFG=\"iotopmode\",2,1");
    assert(digits_of(0, 10) == seq!['0']);
    assert(digits_of(1, 10) == seq!['1']);
    assert(digits_of(2, 10) == seq!['2']);
    assert(scanseq_command(RAT::Ltem) =~= "+QCFG=\"nwscanseq\",02"@);
    assert(scanseq_command(RAT::NbIot) =~= "+QCFG=\"nwscanseq\",03"@);
    assert(scanseq_command(RAT::LtemNbIot) =~= "+QCFG=\"nwscanseq\",00"@);
    assert(iotopmode_command(RAT::Ltem) =~= "+QCFG=\"iotopmode\",0,1"@);
    assert(iotopmode_command(RAT::NbIot) =~= "+QCFG=\"iotopmode\",1,1"@);
    assert(iotopmode_command(RAT::LtemNbIot) =~= "+QCFG=\"iotopmode\",2,1"@);
}

/// `+CGDCONT=1,"IP","<apn>"`.
pub open spec fn apn_command(apn: Seq<char>) -> Seq<char> {
    "+CGDCONT=1,\"IP\",\""@ + apn + "\""@
}

/// `+QCFG="nwscanseq",<seq>`.
pub open spec fn scanseq_command(rat: RAT) -> Seq<char> {
    "+QCFG=\"nwscanseq\","@ + rat_settings(rat).0
}

/// `+QCFG="iotopmode",<mode>,1`.
pub open spec fn iotopmode_command(rat: RAT) -> Seq<char> {
    "+QCFG=\"iotopmode\","@ + digits_of(rat_settings(rat).1, 10) + ",1"@
}

/// `+QCFG="band",0,<LTE-M bands>,<NB-IoT bands>`, the masks in hexadecimal.
pub open spec fn band_command(bands: LteBands) -> Seq<char> {
    "+QCFG=\"band\",0,"@ + digits_of(bands.ltem as nat, 16) + ","@ + digits_of(bands.nbiot as nat, 16)
}

/// The band command carries the two masks in hexadecimal: after `+QCFG="band",0,` come the
/// hexadecimal digits of the LTE-M mask, a comma, and the hexadecimal digits of the NB-IoT
/// mask, each at least one digit.
pub proof fn lemma_band_command_reads_back(bands: LteBands)
    ensures
        exists|x: Seq<char>, y: Seq<char>|
            band_command(bands) == "+QCFG=\"band\",0,"@ + x + ","@ + y && x.len() >= 1
                && y.len() >= 1 && crate::text::all_digits(x, 16) && crate::text::all_digits(y, 16)
                && crate::text::digits_value(x, 16) == bands.ltem && crate::text::digits_value(
                y,
                16,
            ) == bands.nbiot,
{
    let x = digits_of(bands.ltem as nat, 16);
    let y = digits_of(bands.nbiot as nat, 16);
    crate::text::lemma_digits_of_value(bands.ltem as nat, 16);
    crate::text::lemma_digits_of_value(bands.nbiot as nat, 16);
    assert(band_command(bands) == "+QCFG=\"band\",0,"@ + x + ","@ + y);
}

/// Where configuring the modem stands.
#[derive(Debug, Clone, Copy, PartialEq, Eq, Structural)]
pub enum ConfigureState {
    Start,
    /// The firmware version was asked.
    Firmware,
    /// The access point name was set.
    Apn,
    /// Registration reports were switched on.
    Cereg,
    /// The scan sequence was set.
    ScanSeq,
    /// The IoT operating mode was set.
    IotOpMode,
    /// The bands were set.
    Bands,
    /// The modem was asked to attach.
    Attach,
    Done,
}

/// Configuring the modem: read its firmware version, then set the access point name,
/// registration reports, radio access technology and bands, and ask it to attach.
#[derive(Debug, PartialEq)]
pub struct ConfigureProcedure {
    pub state: ConfigureState,
    /// The firmware version: the first line of the answer to `+QGMR`, when it is a plain line.
    pub firmware: Option<AtLine>,
}

impl ConfigureProcedure {
    /// A procedure that has not begun.
    pub fn new() -> (r: ConfigureProcedure)
        ensures
            r.state == ConfigureState::Start,
            r.firmware is None,
    {
        ConfigureProcedure { state: ConfigureState::Start, firmware: None }
    }

    /// Begins: ask for the firmware version.
    pub fn start(&mut self) -> (a: ModemAction)
        requires
            old(self).state is Start,
        ensures
            is_call(a, "+QGMR"@, None),
            final(self).state == ConfigureState::Firmware,
            final(self).firmware == old(self).firmware,
    {
        self.state = ConfigureState::Firmware;
        call("+QGMR", None)
    }

    /// Takes the answer to the last command and decides what comes next. A failed command
    /// ends the procedure with its error, but for the attach, whose answer is not awaited;
    /// the procedure then fails with `ModemError` when no firmware version was read.
    pub fn step(&mut self, config: &ModemConfig, reply: Result<AtResponse, AtError>) -> (a: ModemAction)
        requires
            !(old(self).state is Start || old(self).state is Done),
        ensures
            old(self).state is Firmware ==> final(self).firmware == match reply {
                Ok(resp) => if resp.lines_spec().len() > 0 && resp.lines_spec()[0] is Line {
                    Some(resp.lines_spec()[0]->Line_0)
                } else {
                    None
                },
                Err(_) => old(self).firmware,
            },
            !(old(self).state is Firmware) ==> final(self).firmware == old(self).firmware,
            match reply {
                Err(e) if !(old(self).state is Attach) => a == ModemAction::Finish(Err(Error::At(e)))
                    && final(self).state == ConfigureState::Done,
                _ => match old(self).state {
                    ConfigureState::Firmware => is_call(a, apn_command(config.apn@), None) && final(self).state == ConfigureState::Apn,
                    ConfigureState::Apn => is_call(a, "+CEREG=2"@, None) && final(self).state
                        == ConfigureState::Cereg,
                    ConfigureState::Cereg => is_call(a, scanseq_command(config.rat), None) && final(self).state == ConfigureState::ScanSeq,
                    ConfigureState::ScanSeq => is_call(a, iotopmode_command(config.rat), None) && final(self).state == ConfigureState::IotOpMode,
                    ConfigureState::IotOpMode => is_call(a, band_command(config.bands), None) && final(self).state == ConfigureState::Bands,
                    ConfigureState::Bands => is_long_call(
                        a,
                        "+CGATT=1"@,
                        (ACTIVATION_TIMEOUT_MS + 1000) as u64,
                    ) && final(self).state == ConfigureState::Attach,
                    ConfigureState::Attach => final(self).state == ConfigureState::Done && a
                        == ModemAction::Finish(
                        if old(self).firmware is Some {
                            Ok(())
                        } else {
                            Err(Error::At(AtError::ModemError))
                        },
                    ),
                    _ => true,
                },
            },
    {
        if self.state != ConfigureState::Attach {
            match &reply {
                Err(e) => {
                    self.state = ConfigureState::Done;
                    return ModemAction::Finish(Err(Error::At(*e)));
                },
                Ok(_) => {},
            }
        }
        match self.state {
            ConfigureState::Firmware => {
                match reply {
                    Ok(resp) => {
                        let mut lines = resp.into_lines();
                        if lines.len() > 0 {
                            let first = lines.remove(0);
                            match first {
                                FromModem::Line(l) => {
                                    self.firmware = Some(l);
                                },
                                _ => {
                                    self.firmware = None;
                                },
                            }
                        } else {
                            self.firmware = None;
                        }
                    },
                    Err(_) => {},
                }
                self.state = ConfigureState::Apn;
                let mut cmd = String::from_str("+CGDCONT=1,\"IP\",\"");
                cmd.append(config.apn.as_str());
                cmd.append("\"");
                ModemAction::Call(cmd, None)
            },
            ConfigureState::Apn => {
                self.state = ConfigureState::Cereg;
                call("+CEREG=2", None)
            },
            ConfigureState::Cereg => {
                self.state = ConfigureState::ScanSeq;
                let mut cmd = String::from_str("+QCFG=\"nwscanseq\",");
                match config.rat {
                    RAT::Ltem => cmd.append("02"),
                    RAT::NbIot => cmd.append("03"),
                    RAT::LtemNbIot => cmd.append("00"),
                }
                ModemAction::Call(cmd, None)
            },
            ConfigureState::ScanSeq => {
                self.state = ConfigureState::IotOpMode;
                let mode: u128 = match config.rat {
                    RAT::Ltem => 0,
                    RAT::NbIot => 1,
                    RAT::LtemNbIot => 2,
                };
                let mut cmd = String::from_str("+QCFG=\"iotopmode\",");
                push_digits(&mut cmd, mode, 10);
                cmd.append(",1");
                ModemAction::Call(cmd, None)
            },
            ConfigureState::IotOpMode => {
                self.state = ConfigureState::Bands;
                let mut cmd = String::from_str("+QCFG=\"band\",0,");
                push_digits(&mut cmd, config.bands.ltem, 16);
                cmd.append(",");
                push_digits(&mut cmd, config.bands.nbiot, 16);
                ModemAction::Call(cmd, None)
            },
            ConfigureState::Bands => {
                self.state = ConfigureState::Attach;
                long_call("+CGATT=1", ACTIVATION_TIMEOUT_MS + 1000)
            },
            ConfigureState::Attach => {
                self.state = ConfigureState::Done;
                if self.firmware.is_some() {
                    ModemAction::Finish(Ok(()))
                } else {
                    ModemAction::Finish(Err(Error::At(AtError::ModemError)))
                }
            },
            _ => ModemAction::Finish(Ok(())),
        }
    }
}

/// Where asking whether the modem is registered stands.
#[derive(Debug, Clone, Copy, PartialEq, Eq, Structural)]
pub enum RegisteredState {
    Start,
    /// `+CGATT?` was sent.
    Attached,
    /// `+CGACT?` was sent; the modem's attachment state is kept.
    Active(u8),
    Done,
}

/// Asking whether the modem is attached and context 1 is active.
#[derive(Debug, Clone, Copy, PartialEq, Eq, Structural)]
pub struct RegisteredQuery {
    pub state: RegisteredState,
    /// The answer, once known.
    pub registered: bool,
}

impl RegisteredQuery {
    /// A query that has not begun.
    pub fn new() -> (r: RegisteredQuery)
        ensures
            r.state == RegisteredState::Start,
            !r.registered,
    {
        RegisteredQuery { state: RegisteredState::Start, registered: false }
    }

    /// Begins: ask whether the modem is attached.
    pub fn start(&mut self) -> (a: ModemAction)
        requires
            old(self).state is Start,
        ensures
            is_call(a, "+CGATT?"@, None),
            final(self).state == RegisteredState::Attached,
            !final(self).registered,
    {
        self.state = RegisteredState::Attached;
        self.registered = false;
        call("+CGATT?", None)
    }

    /// The answer handed to `step` can be read without failing on the way.
    pub open spec fn reply_ok(self, reply: Result<AtResponse, AtError>) -> bool {
        match reply {
            Err(_) => true,
            Ok(resp) => match self.state {
                RegisteredState::Attached => resp.pick_ok(None::<(u8, usize)>, seq![0usize]),
                RegisteredState::Active(_) => resp.pick_ok(context_filter(), seq![0usize, 1usize]),
                _ => true,
            },
        }
    }

    /// Whether `step` can take `reply`.
    pub fn reply_is_safe(&self, reply: &Result<AtResponse, AtError>) -> (r: bool)
        ensures
            r == self.reply_ok(*reply),
    {
        match reply {
            Err(_) => true,
            Ok(resp) => match self.state {
                RegisteredState::Attached => {
                    let idx: [usize; 1] = [0];
                    assert(idx@ =~= seq![0usize]);
                    resp.pick_is_safe::<u8>(&None, idx.as_slice())
                },
                RegisteredState::Active(_) => {
                    let idx: [usize; 2] = [0, 1];
                    assert(idx@ =~= seq![0usize, 1usize]);
                    resp.pick_is_safe::<u8>(&Some((1u8, 0usize)), idx.as_slice())
                },
                _ => true,
            },
        }
    }

    /// Takes the answer to the last question: registered means attached (1) with context 1
    /// active (1).
    pub fn step(&mut self, reply: Result<AtResponse, AtError>) -> (a: ModemAction)
        requires
            old(self).state is Attached || old(self).state is Active,
            old(self).reply_ok(reply),
        ensures
            match reply {
                Err(e) => a == ModemAction::Finish(Err(Error::At(e))) && final(self).state
                    == RegisteredState::Done && !final(self).registered,
                Ok(resp) => match old(self).state {
                    RegisteredState::Attached => match first_value_error(resp) {
                        Some(e) => a == ModemAction::Finish(Err(Error::At(e))) && final(self).state
                            == RegisteredState::Done && !final(self).registered,
                        None => is_call(a, "+CGACT?"@, None) && !final(self).registered && final(self).state == RegisteredState::Active(
                            parse_unsigned_u8(
                                resp.picked(None::<(u8, usize)>, seq![0usize])->Ok_0[0],
                            )->0 as u8,
                        ),
                    },
                    RegisteredState::Active(g) => final(self).state == RegisteredState::Done
                        && match activation_error(resp) {
                        Some(e) => a == ModemAction::Finish(Err(Error::At(e))) && !final(self).registered,
                        None => a == ModemAction::Finish(Ok(())) && final(self).registered == (g == 1
                            && activation_state(resp) == 1),
                    },
                    _ => true,
                },
            },
    {
        let resp = match reply {
            Err(e) => {
                self.state = RegisteredState::Done;
                self.registered = false;
                return ModemAction::Finish(Err(Error::At(e)));
            },
            Ok(resp) => resp,
        };
        match self.state {
            RegisteredState::Attached => {
                let idx: [usize; 1] = [0];
                assert(idx@ =~= seq![0usize]);
                self.registered = false;
                match resp.parse1::<u8>(idx) {
                    Err(e) => {
                        self.state = RegisteredState::Done;
                        ModemAction::Finish(Err(Error::At(e)))
                    },
                    Ok(gatt) => {
                        self.state = RegisteredState::Active(gatt);
                        call("+CGACT?", None)
                    },
                }
            },
            RegisteredState::Active(gatt) => {
                self.state = RegisteredState::Done;
                let idx: [usize; 2] = [0, 1];
                assert(idx@ =~= seq![0usize, 1usize]);
                match resp.parse2::<u8, u8>(idx, Some(1u8)) {
                    Err(e) => {
                        self.registered = false;
                        ModemAction::Finish(Err(Error::At(e)))
                    },
                    Ok((_, stat)) => {
                        self.registered = gatt == 1 && stat == 1;
                        ModemAction::Finish(Ok(()))
                    },
                }
            },
            _ => ModemAction::Finish(Ok(())),
        }
    }
}

/// What an unsolicited report of the modem means for the network registration.
#[derive(Debug, Clone, Copy, PartialEq, Eq, Structural)]
pub enum ModemUrc {
    /// `+QIURC`: the packet data context was deactivated.
    PdpDeactivated,
    /// A report that was handled here.
    Handled,
    /// Not a report for the network registration.
    NotHandled,
}

/// Classifies an unsolicited report: `+QIURC` deactivates the context; `+CEREG` with four
/// values is a registration report, handled here.
pub fn modem_urc(response: &CommandResponse) -> (r: ModemUrc)
    requires
        response.command_spec() == "CEREG"@ ==> response.has_values(),
    ensures
        r == if response.command_spec() == "QIURC"@ {
            ModemUrc::PdpDeactivated
        } else if response.command_spec() == "CEREG"@ && response.values_spec().len() == 4 {
            ModemUrc::Handled
        } else {
            ModemUrc::NotHandled
        },
{
    let command = response.command();
    proof {
        reveal_strlit("QIURC");
        reveal_strlit("CEREG");
        assert("QIURC"@[0] != "CEREG"@[0]);
    }
    if str_eq(command, "QIURC") {
        ModemUrc::PdpDeactivated
    } else if str_eq(command, "CEREG") {
        if response.values().len() == 4 {
            ModemUrc::Handled
        } else {
            ModemUrc::NotHandled
        }
    } else {
        ModemUrc::NotHandled
    }
}

} // verus!
