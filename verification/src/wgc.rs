use vstd::prelude::*;

verus! {

/// What the graphics-capture path of one window remembers between frames:
/// the size its frame pool was made for, and the size of its CPU-readable
/// staging texture, if one was made.
pub struct WgcCapture {
    pub last_w: i32,
    pub last_h: i32,
    pub staging: Option<(i32, i32)>,
}

impl WgcCapture {
    /// A capture started for a window of `w`×`h`, with no staging texture yet.
    pub fn new(w: i32, h: i32) -> (r: Self)
        ensures
            r.last_w == w,
            r.last_h == h,
            r.staging is None,
    {
        WgcCapture { last_w: w, last_h: h, staging: None }
    }

    /// A frame whose content is `w`×`h` arrived. When the size changed the
    /// frame pool must be recreated at the new size and the frame skipped:
    /// returns `true` and records the size.
    pub fn content_resized(&mut self, w: i32, h: i32) -> (recreate: bool)
        ensures
            recreate == (w != old(self).last_w || h != old(self).last_h),
            final(self).last_w == w && final(self).last_h == h,
            final(self).staging == old(self).staging,
    {
        if w != self.last_w || h != self.last_h {
            self.last_w = w;
            self.last_h = h;
            return true;
        }
        false
    }

    /// A `w`×`h` texture is to be read back. Returns whether a staging
    /// texture of that size must be made (there is none, or it has another
    /// size), and records it.
    pub fn staging_for(&mut self, w: i32, h: i32) -> (make: bool)
        ensures
            make == (old(self).staging != Some((w, h))),
            final(self).staging == Some((w, h)),
            final(self).last_w == old(self).last_w && final(self).last_h == old(self).last_h,
    {
        let make = match self.staging {
            Some((sw, sh)) => sw != w || sh != h,
            None => true,
        };
        self.staging = Some((w, h));
        make
    }
}

/// The size of a tightly packed `w`×`h` BGRA frame, or `None` for an empty
/// texture (the frame is skipped).
pub fn frame_len(w: i32, h: i32) -> (r: Option<usize>)
    requires
        w >= 1 && h >= 1 ==> w * 4 * h <= usize::MAX,
    ensures
        r == (if w < 1 || h < 1 {
            None
        } else {
            Some((w * 4 * h) as usize)
        }),
{
    if w < 1 || h < 1 {
        return None;
    }
    assert(w * 4 <= w * 4 * h) by (nonlinear_arith)
        requires
            w >= 1,
            h >= 1,
    ;
    let stride = (w as usize) * 4;
    proof {
        assert(stride * (h as usize) == w * 4 * h);
    }
    Some(stride * (h as usize))
}

} // verus!
