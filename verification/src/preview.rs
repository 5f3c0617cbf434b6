//! Live-preview state: progress, detection status and bounding-box
//! drawing over raw RGB frames.
//!
//! Rendering toolkit bindings stay outside the library; the pixel
//! arithmetic and the status texts are verified here.

use vstd::prelude::*;
use vstd::string::StringExecFns;
use crate::camera::{CaptureFrame, FaceBox};
use crate::score::{score_valid, SCALE_PPM};
use crate::text::{dec_digits, u64_to_dec};

verus! {

/// Interaction state of one button.
#[derive(Clone, Copy, Debug, PartialEq, Eq, Structural)]
pub enum ButtonState {
    Normal,
    Hover,
    Pressed,
    Disabled,
}

/// Interaction state of every button on the enrollment screen.
#[derive(Clone, Copy)]
pub struct ButtonStates {
    pub start_capture_btn: ButtonState,
    pub stop_capture_btn: ButtonState,
    pub home_btn: ButtonState,
    pub enroll_btn: ButtonState,
    pub settings_btn: ButtonState,
    pub manage_btn: ButtonState,
}

impl ButtonStates {
    /// Everything enabled except stopping a capture that is not
    /// running.
    pub fn new() -> (r: Self)
        ensures
            r.start_capture_btn == ButtonState::Normal,
            r.stop_capture_btn == ButtonState::Disabled,
            r.home_btn == ButtonState::Normal,
            r.enroll_btn == ButtonState::Normal,
            r.settings_btn == ButtonState::Normal,
            r.manage_btn == ButtonState::Normal,
    {
        ButtonStates {
            start_capture_btn: ButtonState::Normal,
            stop_capture_btn: ButtonState::Disabled,
            home_btn: ButtonState::Normal,
            enroll_btn: ButtonState::Normal,
            settings_btn: ButtonState::Normal,
            manage_btn: ButtonState::Normal,
        }
    }
}

impl Default for ButtonStates {
    fn default() -> (r: Self)
        ensures
            r.start_capture_btn == ButtonState::Normal,
            r.stop_capture_btn == ButtonState::Disabled,
            r.home_btn == ButtonState::Normal,
            r.enroll_btn == ButtonState::Normal,
            r.settings_btn == ButtonState::Normal,
            r.manage_btn == ButtonState::Normal,
    {
        ButtonStates::new()
    }
}

/// State of the live preview pane.
pub struct PreviewState {
    /// The frame being shown, if any arrived yet.
    pub current_frame: Option<CaptureFrame>,
    /// Width of the preview in pixels.
    pub width: u32,
    /// Height of the preview in pixels.
    pub height: u32,
}

/// The progress line: "seen/total frames".
pub open spec fn progress_text_of(state: PreviewState) -> Seq<char> {
    match state.current_frame {
        Some(f) => dec_digits((f.frame_number + 1) as nat) + "/"@ + dec_digits(
            f.total_frames as nat,
        ) + " frames"@,
        None => "0/0 frames"@,
    }
}

impl PreviewState {
    /// A preview pane before any frame arrived, at the default size.
    pub fn new() -> (r: Self)
        ensures
            r.current_frame is None,
            r.width == 640,
            r.height == 480,
    {
        PreviewState { current_frame: None, width: 640, height: 480 }
    }

    /// Show a newly arrived frame.
    pub fn update_frame(&mut self, frame: CaptureFrame)
        ensures
            final(self).width == frame.width,
            final(self).height == frame.height,
            final(self).current_frame matches Some(f) && f == frame,
    {
        self.width = frame.width;
        self.height = frame.height;
        self.current_frame = Some(frame);
    }

    /// The progress line.
    pub fn progress_text(&self) -> (r: String)
        requires
            self.current_frame matches Some(f) ==> f.frame_number < u32::MAX,
        ensures
            r@ == progress_text_of(*self),
    {
        match &self.current_frame {
            Some(f) => {
                let mut s = u64_to_dec((f.frame_number + 1) as u64);
                s.append("/");
                let t = u64_to_dec(f.total_frames as u64);
                s.append(t.as_str());
                s.append(" frames");
                proof {
                    reveal_strlit("/");
                    reveal_strlit(" frames");
                    assert(s@ =~= progress_text_of(*self));
                }
                s
            },
            None => String::from_str("0/0 frames"),
        }
    }

    /// The detection status line: waiting, no face, or a face with its
    /// confidence as a percentage.
    pub fn detection_status(&self) -> (r: String)
        requires
            self.current_frame matches Some(f) ==> (f.face_box matches Some(b) ==> score_valid(
                b.confidence_ppm,
            )),
        ensures
            self.current_frame is None ==> r@ == "En attente de capture..."@,
            (self.current_frame matches Some(f) && !f.face_detected) ==> r@
                == "Aucun visage détecté"@,
            (self.current_frame matches Some(f) && f.face_detected && f.face_box is None) ==> r@
                == "Visage détecté (confiance: 0%)"@,
            self.current_frame matches Some(f) ==> (f.face_detected ==> (f.face_box matches Some(
                b,
            ) ==> r@ == "Visage détecté (confiance: "@ + dec_digits(
                ((b.confidence_ppm as int) * 100 / (SCALE_PPM as int)) as nat,
            ) + "%)"@)),
    {
        match &self.current_frame {
            Some(f) => {
                if f.face_detected {
                    match &f.face_box {
                        Some(b) => {
                            let mut s = String::from_str("Visage détecté (confiance: ");
                            let pct: u64 = ((b.confidence_ppm as u64) * 100) / 1_000_000;
                            let d = u64_to_dec(pct);
                            s.append(d.as_str());
                            s.append("%)");
                            proof {
                                reveal_strlit("%)");
                                assert(s@ =~= "Visage détecté (confiance: "@ + dec_digits(
                                    ((b.confidence_ppm as int) * 100 / (SCALE_PPM as int)) as nat,
                                ) + "%)"@);
                            }
                            s
                        },
                        None => String::from_str("Visage détecté (confiance: 0%)"),
                    }
                } else {
                    String::from_str("Aucun visage détecté")
                }
            },
            None => String::from_str("En attente de capture..."),
        }
    }

    /// A copy of the frame bytes with the bounding box drawn in, ready
    /// to display: the frame's own bytes, except that pixels inside a
    /// detected box may be painted green.
    pub fn get_display_data(&self) -> (r: Option<Vec<u8>>)
        ensures
            r is Some <==> self.current_frame is Some,
            self.current_frame matches Some(f) ==> (r matches Some(d) ==> d@.len()
                == f.frame_data@.len()),
            self.current_frame matches Some(f) ==> (f.face_box is None ==> (r matches Some(d)
                && d@ == f.frame_data@)),
            self.current_frame matches Some(f) ==> (f.face_box matches Some(b) ==> (r matches Some(
                d,
            ) && forall|j: int|
                0 <= j < f.frame_data@.len() && !in_box_bytes(j, b, f.width) ==> d@[j]
                    == f.frame_data@[j])),
            self.current_frame matches Some(f) ==> (r matches Some(d) ==> forall|j: int|
                0 <= j < f.frame_data@.len() ==> d@[j] == f.frame_data@[j] || green_byte(
                    j,
                    #[trigger] d@[j],
                )),
    {
        match &self.current_frame {
            Some(f) => {
                let mut data = crate::frame::copy_bytes(&f.frame_data);
                self.draw_bounding_box(&mut data);
                Some(data)
            },
            None => None,
        }
    }

    /// Draw the detected face's box onto raw RGB bytes. Without a
    /// current frame or a detected box nothing changes; with one, only
    /// bytes of pixels inside the box change, and every changed byte
    /// carries the green value for its channel.
    pub fn draw_bounding_box(&self, frame_data: &mut Vec<u8>)
        ensures
            final(frame_data)@.len() == old(frame_data)@.len(),
            self.current_frame is None ==> final(frame_data)@ == old(frame_data)@,
            self.current_frame matches Some(f) ==> (f.face_box is None ==> final(frame_data)@
                == old(frame_data)@),
            self.current_frame matches Some(f) ==> (f.face_box matches Some(b) ==> forall|j: int|
                0 <= j < old(frame_data)@.len() && !in_box_bytes(j, b, f.width)
                    ==> final(frame_data)@[j] == old(frame_data)@[j]),
            forall|j: int|
                0 <= j < old(frame_data)@.len() ==> final(frame_data)@[j] == old(frame_data)@[j]
                    || green_byte(j, #[trigger] final(frame_data)@[j]),
    {
        if let Some(f) = &self.current_frame {
            if let Some(face_box) = &f.face_box {
                draw_box_rect(frame_data, face_box, f.width);
            }
        }
    }
}

/// The painted value at byte offset `j` of an RGB buffer: green is
/// (0, 255, 0), so the middle byte of a pixel is 255 and the others 0.
pub open spec fn green_byte(j: int, v: u8) -> bool {
    if j % 3 == 1 {
        v == 255
    } else {
        v == 0
    }
}

/// The box's right edge, clamped to the frame width.
pub open spec fn box_right(b: FaceBox, width: u32) -> int {
    if b.x + b.width < width {
        b.x + b.width
    } else {
        width as int
    }
}

/// The box's bottom edge, clamped to the preview height.
pub open spec fn box_bottom(b: FaceBox) -> int {
    if b.y + b.height < 480 {
        b.y + b.height
    } else {
        480int
    }
}

/// Whether byte `j` belongs to a pixel inside the (clamped) box.
pub open spec fn in_box_bytes(j: int, b: FaceBox, width: u32) -> bool {
    exists|y: int|
        #![trigger (y * width + b.x) * 3]
        b.y <= y < box_bottom(b) && (y * width + b.x) * 3 <= j < (y * width + box_right(b, width))
            * 3
}

/// Draw a two-pixel green rectangle along the edges of the face box.
/// Bytes outside the box's pixel rows are never touched.
pub fn draw_box_rect(frame_data: &mut Vec<u8>, face_box: &FaceBox, width: u32)
    ensures
        final(frame_data)@.len() == old(frame_data)@.len(),
        forall|j: int|
            0 <= j < old(frame_data)@.len() && !in_box_bytes(j, *face_box, width)
                ==> final(frame_data)@[j] == old(frame_data)@[j],
        forall|j: int|
            0 <= j < old(frame_data)@.len() ==> final(frame_data)@[j] == old(frame_data)@[j]
                || green_byte(j, #[trigger] final(frame_data)@[j]),
{
    let left = face_box.x as usize;
    let top = face_box.y as usize;
    let right = if (face_box.x as u64) + (face_box.width as u64) < width as u64 {
        (face_box.x as u64 + face_box.width as u64) as usize
    } else {
        width as usize
    };
    let bottom = if (face_box.y as u64) + (face_box.height as u64) < 480 {
        (face_box.y as u64 + face_box.height as u64) as usize
    } else {
        480usize
    };
    let thickness: usize = 2;
    let top_band_end = if bottom >= thickness && top <= bottom - thickness {
        top + thickness
    } else {
        bottom
    };
    let mut y = top;
    while y < top_band_end
        invariant
            top <= y,
            top_band_end <= bottom,
            right as int == box_right(*face_box, width),
            bottom as int == box_bottom(*face_box),
            left == face_box.x && top == face_box.y,
            frame_data@.len() == old(frame_data)@.len(),
            forall|j: int|
                0 <= j < old(frame_data)@.len() && !in_box_bytes(j, *face_box, width)
                    ==> frame_data@[j] == old(frame_data)@[j],
            forall|j: int|
                0 <= j < old(frame_data)@.len() ==> frame_data@[j] == old(frame_data)@[j]
                    || green_byte(j, #[trigger] frame_data@[j]),
        decreases top_band_end - y,
    {
        paint_row(frame_data, y, left, right, width);
        proof {
            lemma_row_in_box(*face_box, width, y as int, left as int, right as int);
        }
        y = y + 1;
    }
    let bottom_band_start = if bottom >= thickness && bottom - thickness >= top {
        bottom - thickness
    } else {
        top
    };
    let mut y2 = bottom_band_start;
    while y2 < bottom
        invariant
            top <= y2,
            right as int == box_right(*face_box, width),
            bottom as int == box_bottom(*face_box),
            left == face_box.x && top == face_box.y,
            frame_data@.len() == old(frame_data)@.len(),
            forall|j: int|
                0 <= j < old(frame_data)@.len() && !in_box_bytes(j, *face_box, width)
                    ==> frame_data@[j] == old(frame_data)@[j],
            forall|j: int|
                0 <= j < old(frame_data)@.len() ==> frame_data@[j] == old(frame_data)@[j]
                    || green_byte(j, #[trigger] frame_data@[j]),
        decreases bottom - y2,
    {
        paint_row(frame_data, y2, left, right, width);
        proof {
            lemma_row_in_box(*face_box, width, y2 as int, left as int, right as int);
        }
        y2 = y2 + 1;
    }
    let left_band_end = if right >= thickness && left <= right - thickness {
        left + thickness
    } else {
        right
    };
    let right_band_start = if right >= thickness && right - thickness >= left {
        right - thickness
    } else {
        left
    };
    let mut y3 = top;
    while y3 < bottom
        invariant
            top <= y3,
            right as int == box_right(*face_box, width),
            bottom as int == box_bottom(*face_box),
            left == face_box.x && top == face_box.y,
            left_band_end <= right,
            left <= right_band_start,
            frame_data@.len() == old(frame_data)@.len(),
            forall|j: int|
                0 <= j < old(frame_data)@.len() && !in_box_bytes(j, *face_box, width)
                    ==> frame_data@[j] == old(frame_data)@[j],
            forall|j: int|
                0 <= j < old(frame_data)@.len() ==> frame_data@[j] == old(frame_data)@[j]
                    || green_byte(j, #[trigger] frame_data@[j]),
        decreases bottom - y3,
    {
        paint_row(frame_data, y3, left, left_band_end, width);
        proof {
            lemma_row_in_box(*face_box, width, y3 as int, left as int, left_band_end as int);
        }
        paint_row(frame_data, y3, right_band_start, right, width);
        proof {
            lemma_row_in_box(*face_box, width, y3 as int, right_band_start as int, right as int);
        }
        y3 = y3 + 1;
    }
}

/// Bytes of a sub-row inside the box are inside the box's byte region.
proof fn lemma_row_in_box(b: FaceBox, width: u32, y: int, x0: int, x1: int)
    requires
        b.y <= y < box_bottom(b),
        b.x <= x0,
        x1 <= box_right(b, width),
    ensures
        forall|j: int|
            (y * width + x0) * 3 <= j < (y * width + x1) * 3 ==> in_box_bytes(j, b, width),
{
    assert forall|j: int|
        (y * width + x0) * 3 <= j < (y * width + x1) * 3 implies in_box_bytes(j, b, width) by {
        assert((y * width + b.x) * 3 <= (y * width + x0) * 3);
        assert((y * width + x1) * 3 <= (y * width + box_right(b, width)) * 3);
        assert(b.y <= y < box_bottom(b) && (y * width + b.x) * 3 <= j < (y * width + box_right(
            b,
            width,
        )) * 3);
    }
}

/// Paint pixels `[x0, x1)` of row `y` green, where they fall inside the
/// byte buffer. Only bytes in that row span change, and every changed
/// byte carries the green value for its channel.
fn paint_row(frame_data: &mut Vec<u8>, y: usize, x0: usize, x1: usize, width: u32)
    ensures
        final(frame_data)@.len() == old(frame_data)@.len(),
        forall|j: int|
            0 <= j < old(frame_data)@.len() && !((y * width + x0) * 3 <= j < (y * width + x1) * 3)
                ==> final(frame_data)@[j] == old(frame_data)@[j],
        forall|j: int|
            0 <= j < old(frame_data)@.len() ==> final(frame_data)@[j] == old(frame_data)@[j]
                || green_byte(j, #[trigger] final(frame_data)@[j]),
{
    let mut x = x0;
    while x < x1
        invariant
            x0 <= x,
            x <= x1 || x == x0,
            frame_data@.len() == old(frame_data)@.len(),
            forall|j: int|
                0 <= j < old(frame_data)@.len() && !((y * width + x0) * 3 <= j < (y * width
                    + x) * 3) ==> frame_data@[j] == old(frame_data)@[j],
            forall|j: int|
                0 <= j < old(frame_data)@.len() ==> frame_data@[j] == old(frame_data)@[j]
                    || green_byte(j, #[trigger] frame_data@[j]),
        decreases x1 - x,
    {
        proof {
            assert(((y as int) * (width as int) + (x as int)) * 3 < u128::MAX)
                by (nonlinear_arith)
                requires
                    0 <= y <= usize::MAX,
                    0 <= width <= u32::MAX,
                    0 <= x <= usize::MAX,
            ;
        }
        let idx128: u128 = ((y as u128) * (width as u128) + (x as u128)) * 3;
        if idx128 + 2 < frame_data.len() as u128 {
            let idx = idx128 as usize;
            proof {
                assert(idx as int == (y * width + x) * 3);
                assert((y * width + x0) * 3 <= idx as int) by (nonlinear_arith)
                    requires
                        x0 <= x,
                        0 <= y,
                        0 <= width,
                        idx as int == (y * width + x) * 3,
                ;
                assert(idx as int + 3 == (y * width + (x + 1)) * 3) by (nonlinear_arith)
                    requires
                        idx as int == (y * width + x) * 3,
                ;
            }
            frame_data[idx] = 0;
            frame_data[idx + 1] = 255;
            frame_data[idx + 2] = 0;
            proof {
                assert(idx as int % 3 == 0 && (idx as int + 1) % 3 == 1 && (idx as int + 2) % 3
                    == 2) by (nonlinear_arith)
                    requires
                        idx as int == (y * width + x) * 3,
                        0 <= y * width + x,
                ;
            }
        } else {
            proof {
                assert((y * width + x) * 3 <= (y * width + (x + 1)) * 3) by (nonlinear_arith);
            }
        }
        x = x + 1;
    }
}


} // verus!
