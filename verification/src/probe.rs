//! Probe requests built from the host's WSM probe template.
//!
//! A template is a four-byte WSM header (type 0, rate, little-endian frame
//! length) followed by an 802.11 frame: a 24-byte management header and a
//! run of information elements. Building the probe keeps the header and the
//! elements in order, puts the requested SSID into the first SSID element
//! (appending one when the template has none), drops later SSID elements,
//! and rewrites every DS Parameter Set element for the active channel.

use vstd::prelude::*;

use crate::phy::ProbeBuildError;

verus! {

/// Largest probe frame the firmware keeps.
pub const MAX_TEMPLATE_FRAME_LEN: usize = 512;

/// Longest SSID an element can carry.
pub const MAX_SSID_LEN: usize = 32;

/// SSID element carrying `ssid`.
pub open spec fn ssid_element(ssid: Seq<u8>) -> Seq<u8> {
    seq![0u8, ssid.len() as u8] + ssid
}

/// DS Parameter Set element for `channel`.
pub open spec fn channel_element(channel: u8) -> Seq<u8> {
    seq![3u8, 1u8, channel]
}

/// Rewrites the elements of `frame` from byte `input` on, appending to
/// `out`; `wrote_ssid` records whether the SSID element was already
/// written. Fails on an element that runs past the frame or an output that
/// would not fit.
pub open spec fn rewrite_elements(
    frame: Seq<u8>,
    input: int,
    out: Seq<u8>,
    wrote_ssid: bool,
    ssid: Seq<u8>,
    channel: u8,
) -> Result<(Seq<u8>, bool), ProbeBuildError>
    decreases frame.len() - input,
{
    if input < 0 || input >= frame.len() {
        Ok((out, wrote_ssid))
    } else if input + 2 > frame.len() {
        Err(ProbeBuildError::MalformedTemplate)
    } else {
        let id = frame[input];
        let next = input + 2 + frame[input + 1];
        if next > frame.len() {
            Err(ProbeBuildError::MalformedTemplate)
        } else if id == 0 {
            if wrote_ssid {
                rewrite_elements(frame, next, out, true, ssid, channel)
            } else if out.len() + 2 + ssid.len() > MAX_TEMPLATE_FRAME_LEN {
                Err(ProbeBuildError::FrameTooLarge)
            } else {
                rewrite_elements(frame, next, out + ssid_element(ssid), true, ssid, channel)
            }
        } else if id == 3 {
            if out.len() + 3 > MAX_TEMPLATE_FRAME_LEN {
                Err(ProbeBuildError::FrameTooLarge)
            } else {
                rewrite_elements(frame, next, out + channel_element(channel), wrote_ssid, ssid, channel)
            }
        } else {
            let element = frame.subrange(input, next);
            if out.len() + element.len() > MAX_TEMPLATE_FRAME_LEN {
                Err(ProbeBuildError::FrameTooLarge)
            } else {
                rewrite_elements(frame, next, out + element, wrote_ssid, ssid, channel)
            }
        }
    }
}

/// The probe built from `template`: its frame bytes and rate, or the error.
pub open spec fn probe_build(template: Option<Seq<u8>>, ssid: Seq<u8>, channel: u8) -> Result<
    (Seq<u8>, u8),
    ProbeBuildError,
> {
    if ssid.len() > MAX_SSID_LEN {
        Err(ProbeBuildError::SsidTooLong)
    } else {
        match template {
            None => Err(ProbeBuildError::MissingTemplate),
            Some(t) => {
                if t.len() < 4 {
                    Err(ProbeBuildError::MalformedTemplate)
                } else if t[0] != 0 {
                    Err(ProbeBuildError::WrongTemplateType)
                } else {
                    let declared = t[2] + t[3] * 256;
                    if declared < 24 || declared != t.len() - 4 {
                        Err(ProbeBuildError::MalformedTemplate)
                    } else {
                        let frame = t.subrange(4, t.len() as int);
                        match rewrite_elements(frame, 24, frame.subrange(0, 24), false, ssid, channel) {
                            Err(e) => Err(e),
                            Ok((out, wrote_ssid)) => {
                                if wrote_ssid {
                                    Ok((out, t[1]))
                                } else if out.len() + 2 + ssid.len() > MAX_TEMPLATE_FRAME_LEN {
                                    Err(ProbeBuildError::FrameTooLarge)
                                } else {
                                    Ok((out + ssid_element(ssid), t[1]))
                                }
                            },
                        }
                    }
                }
            },
        }
    }
}

/// A probe request ready for publication: at most
/// `MAX_TEMPLATE_FRAME_LEN` frame bytes and the template's rate.
pub struct PreparedProbe {
    bytes: Vec<u8>,
    rate: u8,
}

impl PreparedProbe {
    #[verifier::type_invariant]
    spec fn fits(self) -> bool {
        self.bytes@.len() <= MAX_TEMPLATE_FRAME_LEN
    }

    /// The frame bytes and the rate.
    pub closed spec fn view(self) -> (Seq<u8>, u8) {
        (self.bytes@, self.rate)
    }

    pub fn bytes(&self) -> (bytes: &[u8])
        ensures
            bytes@ == self.view().0,
            bytes@.len() <= MAX_TEMPLATE_FRAME_LEN,
    {
        proof {
            use_type_invariant(self);
        }
        self.bytes.as_slice()
    }

    pub fn rate(&self) -> (rate: u8)
        ensures
            rate == self.view().1,
    {
        self.rate
    }
}

fn append_bytes(out: &mut Vec<u8>, bytes: &[u8], start: usize, end: usize)
    requires
        start <= end <= bytes@.len(),
    ensures
        final(out)@ == old(out)@ + bytes@.subrange(start as int, end as int),
{
    let ghost initial = out@;
    let mut index = start;
    while index < end
        invariant
            start <= index <= end,
            end <= bytes@.len(),
            out@ == initial + bytes@.subrange(start as int, index as int),
        decreases end - index,
    {
        out.push(bytes[index]);
        assert(bytes@.subrange(start as int, index as int + 1) =~= bytes@.subrange(
            start as int,
            index as int,
        ).push(bytes[index as int]));
        index = index + 1;
    }
}

fn append_ssid(out: &mut Vec<u8>, ssid: &[u8])
    requires
        ssid@.len() <= MAX_SSID_LEN,
    ensures
        final(out)@ == old(out)@ + ssid_element(ssid@),
{
    let ghost initial = out@;
    out.push(0);
    out.push(ssid.len() as u8);
    append_bytes(out, ssid, 0, ssid.len());
    assert(ssid@.subrange(0, ssid@.len() as int) =~= ssid@);
    assert(out@ =~= initial + ssid_element(ssid@));
}

proof fn lemma_rewrite_done(
    frame: Seq<u8>,
    input: int,
    out: Seq<u8>,
    wrote_ssid: bool,
    ssid: Seq<u8>,
    channel: u8,
)
    requires
        input >= frame.len(),
    ensures
        rewrite_elements(frame, input, out, wrote_ssid, ssid, channel) == Ok::<(Seq<u8>, bool), ProbeBuildError>((out, wrote_ssid)),
{
}

/// Copies the management header of the template's frame and rewrites its
/// elements; also says whether an SSID element was written.
fn rewrite_template_frame(template: &[u8], ssid: &[u8], channel: u8) -> (result: Result<
    (Vec<u8>, bool),
    ProbeBuildError,
>)
    requires
        template@.len() >= 28,
        ssid@.len() <= MAX_SSID_LEN,
    ensures
        ({
            let frame = template@.subrange(4, template@.len() as int);
            match rewrite_elements(frame, 24, frame.subrange(0, 24), false, ssid@, channel) {
                Ok((out, wrote_ssid)) => result is Ok && result->Ok_0.0@ == out
                    && result->Ok_0.1 == wrote_ssid && out.len() <= MAX_TEMPLATE_FRAME_LEN,
                Err(e) => result is Err && result->Err_0 == e,
            }
        }),
{
    let ghost t = template@;
    let ghost frame = t.subrange(4, t.len() as int);
    let frame_len = template.len() - 4;
    let mut out: Vec<u8> = Vec::new();
    append_bytes(&mut out, template, 4, 28);
    assert(out@ =~= frame.subrange(0, 24));
    let mut input: usize = 24;
    let mut wrote_ssid = false;
    while input < frame_len
        invariant
            t == template@,
            frame == t.subrange(4, t.len() as int),
            frame_len == frame.len(),
            frame_len + 4 == template@.len(),
            template@.len() <= usize::MAX,
            24 <= input <= frame_len,
            ssid@.len() <= MAX_SSID_LEN,
            out@.len() <= MAX_TEMPLATE_FRAME_LEN,
            rewrite_elements(frame, 24, frame.subrange(0, 24), false, ssid@, channel)
                == rewrite_elements(frame, input as int, out@, wrote_ssid, ssid@, channel),
        decreases frame_len - input,
    {
        if input + 2 > frame_len {
            return Err(ProbeBuildError::MalformedTemplate);
        }
        let id = template[4 + input];
        let length = template[4 + input + 1] as usize;
        assert(frame[input as int] == id);
        assert(frame[input as int + 1] == length);
        let next = match input.checked_add(2 + length) {
            Some(next) => next,
            None => {
                return Err(ProbeBuildError::MalformedTemplate);
            },
        };
        if next > frame_len {
            return Err(ProbeBuildError::MalformedTemplate);
        }
        if id == 0 {
            if !wrote_ssid {
                if out.len() + 2 + ssid.len() > MAX_TEMPLATE_FRAME_LEN {
                    return Err(ProbeBuildError::FrameTooLarge);
                }
                append_ssid(&mut out, ssid);
                wrote_ssid = true;
            }
        } else if id == 3 {
            if out.len() + 3 > MAX_TEMPLATE_FRAME_LEN {
                return Err(ProbeBuildError::FrameTooLarge);
            }
            let ghost before_channel = out@;
            out.push(3);
            out.push(1);
            out.push(channel);
            assert(out@ =~= before_channel + channel_element(channel));
        } else {
            if out.len() + (next - input) > MAX_TEMPLATE_FRAME_LEN {
                return Err(ProbeBuildError::FrameTooLarge);
            }
            append_bytes(&mut out, template, 4 + input, 4 + next);
            assert(template@.subrange(4 + input as int, 4 + next as int) =~= frame.subrange(
                input as int,
                next as int,
            ));
        }
        input = next;
    }
    proof {
        lemma_rewrite_done(frame, input as int, out@, wrote_ssid, ssid@, channel);
    }
    Ok((out, wrote_ssid))
}

/// Builds the probe request of `template` for `ssid` on `channel`.
pub fn prepare_probe(template: Option<&[u8]>, ssid: &[u8], channel: u8) -> (result: Result<
    PreparedProbe,
    ProbeBuildError,
>)
    ensures
        ({
            let expected = probe_build(
                match template {
                    Some(t) => Some(t@),
                    None => None,
                },
                ssid@,
                channel,
            );
            match expected {
                Ok(probe) => result is Ok && result->Ok_0.view() == probe,
                Err(e) => result is Err && result->Err_0 == e,
            }
        }),
{
    if ssid.len() > MAX_SSID_LEN {
        return Err(ProbeBuildError::SsidTooLong);
    }
    let bytes = match template {
        Some(bytes) => bytes,
        None => {
            return Err(ProbeBuildError::MissingTemplate);
        },
    };
    if bytes.len() < 4 {
        return Err(ProbeBuildError::MalformedTemplate);
    }
    if bytes[0] != 0 {
        return Err(ProbeBuildError::WrongTemplateType);
    }
    let rate = bytes[1];
    let declared = bytes[2] as usize + bytes[3] as usize * 256;
    if declared < 24 || declared != bytes.len() - 4 {
        return Err(ProbeBuildError::MalformedTemplate);
    }
    let (mut out, wrote_ssid) = match rewrite_template_frame(bytes, ssid, channel) {
        Ok(rewritten) => rewritten,
        Err(error) => {
            return Err(error);
        },
    };
    if !wrote_ssid {
        if out.len() + 2 + ssid.len() > MAX_TEMPLATE_FRAME_LEN {
            return Err(ProbeBuildError::FrameTooLarge);
        }
        append_ssid(&mut out, ssid);
    }
    Ok(PreparedProbe { bytes: out, rate })
}

} // verus!
