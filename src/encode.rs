use vstd::prelude::*;
use crate::frame::{Disposal, OutputFrame};

verus! {

#[verifier::external_type_specification]
#[verifier::external_body]
pub struct ExGifFrame<'a>(gif::Frame<'a>);

#[verifier::external_type_specification]
#[verifier::external_body]
pub struct ExDisposalMethod(gif::DisposalMethod);

/// Relies on gif::DisposalMethod::from_u8: codes 0 to 3 name a method, others none.
pub assume_specification[ gif::DisposalMethod::from_u8 ](n: u8) -> (r: Option<gif::DisposalMethod>)
    ensures
        r.is_some() == (n < 4),
;

/// An RGBA buffer in which every non-zero alpha has been raised to 255.
pub open spec fn alpha_binarized(s: Seq<u8>) -> Seq<u8> {
    Seq::new(s.len(), |k: int| if k % 4 == 3 && s[k] != 0 { 255u8 } else { s[k] })
}

/// Relies on gif::Frame::from_rgba, which panics unless the buffer holds
/// `width * height * 4` bytes and raises every non-zero alpha of it to 255 in
/// place before it quantizes the colors; the timing fields are then set.
#[verifier::external_body]
fn gif_frame_from_rgba(
    width: u16,
    height: u16,
    pixels: &mut Vec<u8>,
    delay: u16,
    dispose: gif::DisposalMethod,
    transparent: Option<u8>,
) -> (r: gif::Frame<'static>)
    requires
        old(pixels)@.len() == width * height * 4,
    ensures
        final(pixels)@ == alpha_binarized(old(pixels)@),
{
    let mut frame = gif::Frame::from_rgba(width, height, pixels.as_mut_slice());
    frame.delay = delay;
    frame.dispose = dispose;
    frame.transparent = transparent;
    frame
}

/// The code of a disposal method in the GIF format.
pub open spec fn disposal_code_of(d: Disposal) -> u8 {
    match d {
        Disposal::Any => 0,
        Disposal::Keep => 1,
        Disposal::Background => 2,
        Disposal::Previous => 3,
    }
}

/// The code of a disposal method in the GIF format (0 to 3).
pub fn disposal_code(d: Disposal) -> (r: u8)
    ensures
        r == disposal_code_of(d),
        r < 4,
{
    match d {
        Disposal::Any => 0,
        Disposal::Keep => 1,
        Disposal::Background => 2,
        Disposal::Previous => 3,
    }
}

/// The disposal method that a GIF code names, if any.
pub fn disposal_from_code(code: u8) -> (r: Option<Disposal>)
    ensures
        r.is_some() == (code < 4),
        r.is_some() ==> disposal_code_of(r.unwrap()) == code,
{
    if code == 0 {
        Some(Disposal::Any)
    } else if code == 1 {
        Some(Disposal::Keep)
    } else if code == 2 {
        Some(Disposal::Background)
    } else if code == 3 {
        Some(Disposal::Previous)
    } else {
        None
    }
}

/// Encodes a strip frame as a GIF frame of its own palette, with the same
/// delay, disposal method and transparent index. Returns the pixels as the
/// encoder saw them: the buffer with every non-zero alpha raised to 255.
pub fn to_gif_frame(out: &OutputFrame) -> (r: (gif::Frame<'static>, Vec<u8>))
    requires
        out.wf(),
    ensures
        r.1@ == alpha_binarized(out.buffer@),
{
    let code = disposal_code(out.dispose);
    let method = gif::DisposalMethod::from_u8(code).unwrap();
    let mut pixels = out.buffer.clone();
    let frame = gif_frame_from_rgba(out.width, out.height, &mut pixels, out.delay, method, out.transparent);
    (frame, pixels)
}

} // verus!
