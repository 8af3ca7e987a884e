//! The pseudorandom generator: a `ck_meow::Meow` sponge, modelled by the
//! sequence of operations it has absorbed.

use ck_meow::Meow;
use vstd::prelude::*;

verus! {

#[verifier::external_type_specification]
#[verifier::external_body]
pub struct ExMeow(Meow);

/// The tag of a metadata absorption in a transcript.
pub open spec fn op_meta_ad() -> u8 {
    0
}

/// The tag of a data absorption in a transcript.
pub open spec fn op_ad() -> u8 {
    1
}

/// The tag of a squeeze of output bytes in a transcript.
pub open spec fn op_prf() -> u8 {
    2
}

/// The operations that a sponge has absorbed since it was created, in order:
/// a tag, the bytes, and whether the call continued the operation before it.
pub uninterp spec fn meow_transcript(m: Meow) -> Seq<(u8, Seq<u8>, bool)>;

/// The bytes that a squeeze of `len` bytes yields from a sponge with the
/// given transcript, either continuing the squeeze before it (`more`) or
/// starting a new one.
pub uninterp spec fn meow_prf_output(
    transcript: Seq<(u8, Seq<u8>, bool)>,
    len: nat,
    more: bool,
) -> Seq<u8>;

/// Whether a call of the operation `tag` may continue the transcript with its
/// flag `more` set: only an operation of the same kind can be continued.
pub open spec fn may_continue(transcript: Seq<(u8, Seq<u8>, bool)>, tag: u8, more: bool) -> bool {
    more ==> transcript.len() > 0 && transcript.last().0 == tag
}

/// Relies on `ck_meow::Meow::new`: the fresh state starts from a fixed
/// context and absorbs the protocol string as metadata.
#[verifier::external_body]
pub(crate) fn meow_new(protocol: &[u8]) -> (r: Meow)
    ensures
        meow_transcript(r) == seq![(op_meta_ad(), protocol@, false)],
{
    Meow::new(protocol)
}

/// Relies on `ck_meow::Meow::meta_ad`: absorbs the bytes as metadata. It
/// panics when `more` continues an operation of another kind.
#[verifier::external_body]
pub(crate) fn meow_meta_ad(m: &mut Meow, data: &[u8], more: bool)
    requires
        may_continue(meow_transcript(*old(m)), op_meta_ad(), more),
    ensures
        meow_transcript(*final(m)) == meow_transcript(*old(m)).push((op_meta_ad(), data@, more)),
{
    m.meta_ad(data, more)
}

/// Relies on `ck_meow::Meow::ad`: absorbs the bytes as data. It panics when
/// `more` continues an operation of another kind.
#[verifier::external_body]
pub(crate) fn meow_ad(m: &mut Meow, data: &[u8], more: bool)
    requires
        may_continue(meow_transcript(*old(m)), op_ad(), more),
    ensures
        meow_transcript(*final(m)) == meow_transcript(*old(m)).push((op_ad(), data@, more)),
{
    m.ad(data, more)
}

/// Relies on `Clone` for `ck_meow::Meow`: the copy holds the same state.
#[verifier::external_body]
pub(crate) fn meow_fork(m: &Meow) -> (r: Meow)
    ensures
        meow_transcript(r) == meow_transcript(*m),
{
    m.clone()
}

/// Relies on `ck_meow::Meow::prf`: overwrites the buffer with as many output
/// bytes, which the state before the call and the flag `more` determine.
#[verifier::external_body]
pub(crate) fn meow_prf(m: &mut Meow, data: &mut Vec<u8>, more: bool)
    requires
        may_continue(meow_transcript(*old(m)), op_prf(), more),
    ensures
        final(data)@ == meow_prf_output(meow_transcript(*old(m)), old(data)@.len(), more),
        final(data)@.len() == old(data)@.len(),
        meow_transcript(*final(m)) == meow_transcript(*old(m)).push(
            (op_prf(), Seq::new(old(data)@.len(), |i: int| 0u8), more),
        ),
{
    m.prf(data.as_mut_slice(), more)
}

} // verus!
