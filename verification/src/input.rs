//! Pointer input: which stroke each pointer continues, the brush-resize
//! gesture, and the cursor shown as the brush preview. Pointer poses
//! (position, pressure, tilt) are carried as an opaque payload `P`, and the
//! resize gesture's anchor (where it started and the size it started from) as
//! `G`; the geometry on them is computed by the caller.

use vstd::prelude::*;
use crate::tool::Tool;

verus! {

/// The device a pointer sample came from.
#[derive(Clone, Copy, Debug, PartialEq, Eq, Structural)]
pub enum PointerSource {
    Mouse,
    Pen,
}

impl PointerSource {
    /// The name shown in the heads-up display.
    pub fn label(self) -> (s: &'static str)
        ensures
            s@ == (match self {
                PointerSource::Mouse => "mouse"@,
                PointerSource::Pen => "tablet"@,
            }),
    {
        match self {
            PointerSource::Mouse => "mouse",
            PointerSource::Pen => "tablet",
        }
    }
}

/// The tool a tablet pen acts as: the physical eraser tip, or any tip while
/// the barrel button is held, erases; otherwise the pen draws.
pub fn pen_tool(eraser_tip: bool, barrel_pressed: bool) -> (tool: Tool)
    ensures
        tool == (if eraser_tip || barrel_pressed { Tool::Eraser } else { Tool::Pen }),
{
    if eraser_tip || barrel_pressed {
        Tool::Eraser
    } else {
        Tool::Pen
    }
}

/// The tool a mouse drag uses: the right button erases, the left one draws.
pub fn mouse_tool(right_pressed: bool) -> (tool: Tool)
    ensures
        tool == (if right_pressed { Tool::Eraser } else { Tool::Pen }),
{
    if right_pressed {
        Tool::Eraser
    } else {
        Tool::Pen
    }
}

/// A pointer sample: the device pose and the tool it acts with.
#[derive(Clone, Copy, Debug)]
pub struct Sample<P> {
    pub pose: P,
    pub tool: Tool,
}

/// A brush-resize drag in progress.
#[derive(Clone, Copy, Debug)]
pub struct SizeGesture<G> {
    pub source: PointerSource,
    pub tool: Tool,
    pub anchor: G,
}

/// What the caller does with an active sample.
#[derive(Clone, Copy, Debug)]
pub enum ActiveStep<P, G> {
    /// Shift is held: the sample resizes `gesture.tool` from the gesture's anchor.
    Resize(SizeGesture<G>),
    /// The sample paints, joined to `last` (the previous dab of the same
    /// pointer and tool) when there is one.
    Paint(Option<Sample<P>>),
}

/// The pen's buttons as far as input handling tells them apart.
#[derive(Clone, Copy, Debug, PartialEq, Eq, Structural)]
pub enum PenButtonKind {
    /// The tip touching the tablet.
    Contact,
    /// The barrel (side) button.
    Barrel,
    Other,
}

/// Pointer state across frames.
pub struct PaintInputState<P, G> {
    /// The last dab of the mouse stroke in progress.
    pub mouse_last: Option<Sample<P>>,
    /// The last dab of the pen stroke in progress.
    pub pen_last: Option<Sample<P>>,
    pub pen_contact: bool,
    pub pen_barrel: bool,
    /// The sample the brush preview follows.
    pub cursor: Option<Sample<P>>,
    pub cursor_source: PointerSource,
    /// The cursor's pointer is pressed (preview shows live pressure).
    pub cursor_down: bool,
    pub active_tool: Tool,
    pub sizing: Option<SizeGesture<G>>,
}

impl<P: Copy, G: Copy> PaintInputState<P, G> {
    /// The last dab of the stroke that `source` is drawing.
    pub open spec fn last_of(self, source: PointerSource) -> Option<Sample<P>> {
        match source {
            PointerSource::Mouse => self.mouse_last,
            PointerSource::Pen => self.pen_last,
        }
    }

    /// The state with the stroke of `source` set to `last`.
    pub open spec fn with_last(self, source: PointerSource, last: Option<Sample<P>>) -> Self {
        match source {
            PointerSource::Mouse => PaintInputState { mouse_last: last, ..self },
            PointerSource::Pen => PaintInputState { pen_last: last, ..self },
        }
    }

    /// The state after `source` lifts: its stroke and any resize gesture it
    /// makes end, and the cursor, if it follows `source`, is no longer down.
    pub open spec fn ended(self, source: PointerSource) -> Self {
        PaintInputState {
            sizing: match self.sizing {
                Some(g) => if g.source == source {
                    None
                } else {
                    self.sizing
                },
                None => None,
            },
            cursor_down: self.cursor_down && self.cursor_source != source,
            ..self.with_last(source, None)
        }
    }

    /// The state after `source` hovers at `sample`: the cursor follows it, up,
    /// and its tool becomes the active one.
    pub open spec fn hovered(self, source: PointerSource, sample: Sample<P>) -> Self {
        PaintInputState {
            cursor: Some(sample),
            cursor_source: source,
            cursor_down: false,
            active_tool: sample.tool,
            ..self
        }
    }

    /// The pen sample for `pose`, with the tool the pen's tip and barrel select.
    pub open spec fn pen_sample(self, pose: P, eraser_tip: bool) -> Sample<P> {
        Sample {
            pose,
            tool: if eraser_tip || self.pen_barrel { Tool::Eraser } else { Tool::Pen },
        }
    }

    /// The state after `source` is pressed at `sample`, and what the caller
    /// does with the sample (see `begin_active`).
    pub open spec fn activated(self, source: PointerSource, sample: Sample<P>, shift: bool, anchor: G) -> (
        Self,
        ActiveStep<P, G>,
    ) {
        let pressed = PaintInputState {
            cursor: Some(sample),
            cursor_source: source,
            cursor_down: true,
            active_tool: sample.tool,
            ..self
        };
        if shift {
            let continues = match self.sizing {
                Some(g) => g.source == source && g.tool == sample.tool,
                None => false,
            };
            let gesture = if continues {
                self.sizing.unwrap()
            } else {
                SizeGesture { source, tool: sample.tool, anchor }
            };
            let next = if continues {
                pressed
            } else {
                PaintInputState { sizing: Some(gesture), ..pressed }.with_last(source, None)
            };
            (next, ActiveStep::Resize(gesture))
        } else {
            let cancels = match self.sizing {
                Some(g) => g.source == source,
                None => false,
            };
            let last = if cancels {
                None
            } else {
                self.last_of(source)
            };
            let next = if cancels {
                PaintInputState { sizing: None, ..pressed }.with_last(source, None)
            } else {
                pressed
            };
            let joined = match last {
                Some(l) => if l.tool == sample.tool {
                    last
                } else {
                    None
                },
                None => None,
            };
            (next, ActiveStep::Paint(joined))
        }
    }

    /// No stroke, no contact, no cursor; the mouse is the cursor's source and
    /// the pen is the active tool.
    pub fn new() -> (s: Self)
        ensures
            s.mouse_last is None,
            s.pen_last is None,
            !s.pen_contact,
            !s.pen_barrel,
            s.cursor is None,
            s.cursor_source == PointerSource::Mouse,
            !s.cursor_down,
            s.active_tool == Tool::Pen,
            s.sizing is None,
    {
        PaintInputState {
            mouse_last: None,
            pen_last: None,
            pen_contact: false,
            pen_barrel: false,
            cursor: None,
            cursor_source: PointerSource::Mouse,
            cursor_down: false,
            active_tool: Tool::Pen,
            sizing: None,
        }
    }

    /// Forgets the stroke of `source`, so its next dab starts a new stroke.
    pub fn break_stroke(&mut self, source: PointerSource)
        ensures
            *final(self) == old(self).with_last(source, None),
    {
        match source {
            PointerSource::Mouse => self.mouse_last = None,
            PointerSource::Pen => self.pen_last = None,
        }
    }

    /// Forgets the strokes of both pointers.
    pub fn forget_strokes(&mut self)
        ensures
            *final(self) == (PaintInputState { mouse_last: None, pen_last: None, ..*old(self) }),
    {
        self.mouse_last = None;
        self.pen_last = None;
    }

    /// The pointer `source` lifted.
    pub fn end_stroke(&mut self, source: PointerSource)
        ensures
            *final(self) == old(self).ended(source),
            final(self).last_of(source) is None,
            (old(self).sizing matches Some(g) && g.source == source) ==> final(self).sizing is None,
            !(old(self).sizing matches Some(g) && g.source == source) ==> final(self).sizing == old(
                self,
            ).sizing,
            final(self).cursor_source == source ==> !final(self).cursor_down,
    {
        self.break_stroke(source);
        match self.sizing {
            Some(g) => {
                if g.source == source {
                    self.sizing = None;
                }
            },
            None => {},
        }
        if self.cursor_source == source {
            self.cursor_down = false;
        }
    }

    /// The pointer `source` moves at `sample` without pressing.
    pub fn hover(&mut self, source: PointerSource, sample: Sample<P>)
        ensures
            *final(self) == old(self).hovered(source, sample),
            final(self).cursor == Some(sample),
            final(self).cursor_source == source,
            !final(self).cursor_down,
            final(self).active_tool == sample.tool,
    {
        self.cursor = Some(sample);
        self.cursor_source = source;
        self.cursor_down = false;
        self.active_tool = sample.tool;
    }

    /// Shift was let go: a resize gesture in progress ends, and the pointer
    /// that made it starts its next stroke afresh.
    pub fn release_sizing(&mut self)
        ensures
            *final(self) == (match old(self).sizing {
                Some(g) => PaintInputState { sizing: None, ..*old(self) }.with_last(g.source, None),
                None => *old(self),
            }),
    {
        match self.sizing {
            Some(g) => {
                self.sizing = None;
                self.break_stroke(g.source);
            },
            None => {},
        }
    }

    /// The pointer `source` is pressed at `sample`: the cursor follows it, down,
    /// with its tool active. With shift held the sample belongs to a resize
    /// gesture: one of the same pointer and tool goes on, any other is replaced
    /// by a new one anchored at `anchor` (and that pointer's stroke ends).
    /// Without shift, a gesture of this pointer ends along with its stroke,
    /// and the sample paints, joined to the stroke's last dab if that dab was
    /// made with the same tool.
    pub fn begin_active(
        &mut self,
        source: PointerSource,
        sample: Sample<P>,
        shift: bool,
        anchor: G,
    ) -> (step: ActiveStep<P, G>)
        ensures
            (*final(self), step) == old(self).activated(source, sample, shift, anchor),
            final(self).cursor == Some(sample),
            final(self).cursor_source == source,
            final(self).cursor_down,
            final(self).active_tool == sample.tool,
            shift ==> step is Resize,
            !shift ==> step is Paint,
    {
        self.cursor = Some(sample);
        self.cursor_source = source;
        self.cursor_down = true;
        self.active_tool = sample.tool;
        if shift {
            let continues = match self.sizing {
                Some(g) => g.source == source && g.tool == sample.tool,
                None => false,
            };
            let gesture = match self.sizing {
                Some(g) => if continues {
                    g
                } else {
                    SizeGesture { source, tool: sample.tool, anchor }
                },
                None => SizeGesture { source, tool: sample.tool, anchor },
            };
            if !continues {
                self.sizing = Some(gesture);
                self.break_stroke(source);
            }
            return ActiveStep::Resize(gesture);
        }
        let cancels = match self.sizing {
            Some(g) => g.source == source,
            None => false,
        };
        if cancels {
            self.sizing = None;
            self.break_stroke(source);
        }
        let last = match source {
            PointerSource::Mouse => self.mouse_last,
            PointerSource::Pen => self.pen_last,
        };
        let joined = match last {
            Some(l) => if l.tool == sample.tool {
                last
            } else {
                None
            },
            None => None,
        };
        ActiveStep::Paint(joined)
    }

    /// A dab was painted at `sample`: it becomes the last dab of the stroke of `source`.
    pub fn record_dab(&mut self, source: PointerSource, sample: Sample<P>)
        ensures
            *final(self) == old(self).with_last(source, Some(sample)),
    {
        match source {
            PointerSource::Mouse => self.mouse_last = Some(sample),
            PointerSource::Pen => self.pen_last = Some(sample),
        }
    }

    /// The pen came into range at `pose` (when the tablet reports one): it
    /// hovers there with the tool its tip and barrel select.
    pub fn pen_entered(&mut self, pose: Option<P>, eraser_tip: bool)
        ensures
            *final(self) == (match pose {
                Some(p) => old(self).hovered(
                    PointerSource::Pen,
                    old(self).pen_sample(p, eraser_tip),
                ),
                None => *old(self),
            }),
            pose matches Some(p) ==> final(self).cursor == Some(
                Sample {
                    pose: p,
                    tool: if eraser_tip || old(self).pen_barrel {
                        Tool::Eraser
                    } else {
                        Tool::Pen
                    },
                },
            ),
    {
        match pose {
            Some(p) => {
                let sample = Sample { pose: p, tool: pen_tool(eraser_tip, self.pen_barrel) };
                self.hover(PointerSource::Pen, sample);
            },
            None => {},
        }
    }

    /// The pen moved to `pose`. While the tip touches (a contact press, or a
    /// pressure reading above the contact threshold: `pressure_contact`) the
    /// sample is returned to be handled as an active sample and nothing else
    /// changes; otherwise the pen stroke ends and the pen hovers there.
    pub fn pen_moved(&mut self, pose: P, eraser_tip: bool, pressure_contact: bool) -> (active:
        Option<Sample<P>>)
        ensures
            ({
                let sample = old(self).pen_sample(pose, eraser_tip);
                if old(self).pen_contact || pressure_contact {
                    active == Some(sample) && *final(self) == *old(self)
                } else {
                    active is None && *final(self) == old(self).ended(PointerSource::Pen).hovered(
                        PointerSource::Pen,
                        sample,
                    )
                }
            }),
            ({
                let direct = Sample {
                    pose,
                    tool: if eraser_tip || old(self).pen_barrel {
                        Tool::Eraser
                    } else {
                        Tool::Pen
                    },
                };
                &&& active is Some ==> active == Some(direct)
                &&& active is None ==> final(self).cursor == Some(direct)
            }),
    {
        let sample = Sample { pose, tool: pen_tool(eraser_tip, self.pen_barrel) };
        if self.pen_contact || pressure_contact {
            Some(sample)
        } else {
            self.end_stroke(PointerSource::Pen);
            self.hover(PointerSource::Pen, sample);
            None
        }
    }

    /// A pen button changed to `pressed`, with the pen at `pose` when the
    /// tablet reports one. The barrel button switches the tool and ends the
    /// pen stroke. A contact press starts touching, and the sample is returned
    /// to be handled as an active sample; a contact release ends the stroke
    /// and the pen hovers. Any other button returns the sample as active while
    /// the tip touches, and hovers otherwise.
    pub fn pen_button(
        &mut self,
        button: PenButtonKind,
        pressed: bool,
        pose: Option<P>,
        eraser_tip: bool,
    ) -> (active: Option<Sample<P>>)
        ensures
            ({
                let base = if button == PenButtonKind::Barrel {
                    PaintInputState { pen_barrel: pressed, pen_last: None, ..*old(self) }
                } else {
                    *old(self)
                };
                let sample = match pose {
                    Some(p) => Some(base.pen_sample(p, eraser_tip)),
                    None => None,
                };
                if button == PenButtonKind::Contact {
                    if pressed {
                        active == sample && *final(self) == (PaintInputState {
                            pen_contact: true,
                            ..base
                        })
                    } else {
                        let lifted = PaintInputState { pen_contact: false, ..base }.ended(
                            PointerSource::Pen,
                        );
                        active is None && *final(self) == match sample {
                            Some(s) => lifted.hovered(PointerSource::Pen, s),
                            None => lifted,
                        }
                    }
                } else {
                    match sample {
                        Some(s) => if base.pen_contact {
                            active == sample && *final(self) == base
                        } else {
                            active is None && *final(self) == base.hovered(PointerSource::Pen, s)
                        },
                        None => active is None && *final(self) == base,
                    }
                }
            }),
            final(self).pen_barrel == if button == PenButtonKind::Barrel {
                pressed
            } else {
                old(self).pen_barrel
            },
            ({
                let tool = if eraser_tip || final(self).pen_barrel {
                    Tool::Eraser
                } else {
                    Tool::Pen
                };
                &&& active matches Some(s) ==> pose == Some(s.pose) && s.tool == tool
                &&& (active is None && pose is Some) ==> final(self).cursor == Some(
                    Sample { pose: pose.unwrap(), tool },
                )
            }),
    {
        if button == PenButtonKind::Barrel {
            self.pen_barrel = pressed;
            self.pen_last = None;
        }
        let tool = pen_tool(eraser_tip, self.pen_barrel);
        let sample = match pose {
            Some(p) => Some(Sample { pose: p, tool }),
            None => None,
        };
        if button == PenButtonKind::Contact {
            if pressed {
                self.pen_contact = true;
                sample
            } else {
                self.pen_contact = false;
                self.end_stroke(PointerSource::Pen);
                match sample {
                    Some(s) => self.hover(PointerSource::Pen, s),
                    None => {},
                }
                None
            }
        } else {
            match sample {
                Some(s) => {
                    if self.pen_contact {
                        sample
                    } else {
                        self.hover(PointerSource::Pen, s);
                        None
                    }
                },
                None => None,
            }
        }
    }

    /// The pen left the tablet's range: no contact, no barrel, its stroke ends,
    /// and if the cursor followed the pen there is no cursor.
    pub fn pen_left(&mut self)
        ensures
            ({
                let lifted = PaintInputState {
                    pen_contact: false,
                    pen_barrel: false,
                    ..*old(self)
                }.ended(PointerSource::Pen);
                *final(self) == if old(self).cursor_source == PointerSource::Pen {
                    PaintInputState { cursor: None, ..lifted }
                } else {
                    lifted
                }
            }),
    {
        self.pen_contact = false;
        self.pen_barrel = false;
        self.end_stroke(PointerSource::Pen);
        if self.cursor_source == PointerSource::Pen {
            self.cursor = None;
        }
    }

    /// The mouse moved to `pose`. While a button is held the sample, with the
    /// button's tool, is returned to be handled as an active sample and
    /// nothing changes; otherwise the mouse hovers with the active tool.
    pub fn mouse_moved(&mut self, pose: P, button_down: bool, right_pressed: bool) -> (active:
        Option<Sample<P>>)
        ensures
            button_down ==> active == Some(Sample {
                pose,
                tool: if right_pressed { Tool::Eraser } else { Tool::Pen },
            }) && *final(self) == *old(self),
            !button_down ==> active is None && *final(self) == old(self).hovered(
                PointerSource::Mouse,
                Sample { pose, tool: old(self).active_tool },
            ),
    {
        if button_down {
            Some(Sample { pose, tool: mouse_tool(right_pressed) })
        } else {
            let sample = Sample { pose, tool: self.active_tool };
            self.hover(PointerSource::Mouse, sample);
            None
        }
    }

    /// A mouse button went down this frame: the mouse starts a new stroke.
    pub fn mouse_frame_start(&mut self, button_pressed_now: bool)
        ensures
            *final(self) == if button_pressed_now {
                old(self).with_last(PointerSource::Mouse, None)
            } else {
                *old(self)
            },
    {
        if button_pressed_now {
            self.break_stroke(PointerSource::Mouse);
        }
    }

    /// The dab of a click: when a button went down this frame while held and
    /// no mouse move painted, the press paints once where the mouse last was
    /// (if known), with the button's tool.
    pub fn click_dab(
        &self,
        button_pressed_now: bool,
        button_down: bool,
        painted_move: bool,
        last_pose: Option<P>,
        right_pressed: bool,
    ) -> (active: Option<Sample<P>>)
        ensures
            active == if button_pressed_now && button_down && !painted_move && last_pose is Some {
                Some(
                    Sample {
                        pose: last_pose.unwrap(),
                        tool: if right_pressed {
                            Tool::Eraser
                        } else {
                            Tool::Pen
                        },
                    },
                )
            } else {
                None
            },
    {
        if button_pressed_now && button_down && !painted_move {
            match last_pose {
                Some(pose) => Some(Sample { pose, tool: mouse_tool(right_pressed) }),
                None => None,
            }
        } else {
            None
        }
    }

    /// End of the frame's mouse input: a released button, or none held, ends
    /// the mouse stroke.
    pub fn mouse_frame_end(&mut self, button_released_now: bool, button_down: bool)
        ensures
            *final(self) == if button_released_now || !button_down {
                old(self).ended(PointerSource::Mouse)
            } else {
                *old(self)
            },
    {
        if button_released_now || !button_down {
            self.end_stroke(PointerSource::Mouse);
        }
    }

    /// The mouse left the window: its stroke ends, and if the cursor followed
    /// the mouse there is no cursor.
    pub fn cursor_left(&mut self)
        ensures
            *final(self) == if old(self).cursor_source == PointerSource::Mouse {
                PaintInputState { cursor: None, ..old(self).ended(PointerSource::Mouse) }
            } else {
                old(self).ended(PointerSource::Mouse)
            },
    {
        self.end_stroke(PointerSource::Mouse);
        if self.cursor_source == PointerSource::Mouse {
            self.cursor = None;
        }
    }
}

/// Lifting a pointer ends its stroke: the next sample it paints joins no
/// earlier dab.
pub proof fn lemma_lift_starts_new_stroke<P: Copy, G: Copy>(
    state: PaintInputState<P, G>,
    source: PointerSource,
    sample: Sample<P>,
    anchor: G,
)
    ensures
        state.ended(source).activated(source, sample, false, anchor).1 == ActiveStep::<P, G>::Paint(
            None,
        ),
{
}

/// A stroke joins consecutive dabs: once a dab is recorded for a pointer that
/// is not resizing, its next sample with the same tool joins that dab.
pub proof fn lemma_stroke_joins_last_dab<P: Copy, G: Copy>(
    state: PaintInputState<P, G>,
    source: PointerSource,
    dab: Sample<P>,
    sample: Sample<P>,
    anchor: G,
)
    requires
        dab.tool == sample.tool,
        !(state.sizing matches Some(g) && g.source == source),
    ensures
        state.with_last(source, Some(dab)).activated(source, sample, false, anchor).1
            == ActiveStep::<P, G>::Paint(Some(dab)),
{
}

/// Switching tools mid-stroke starts a new stroke: a sample whose tool differs
/// from the last dab's joins nothing.
pub proof fn lemma_tool_change_starts_new_stroke<P: Copy, G: Copy>(
    state: PaintInputState<P, G>,
    source: PointerSource,
    sample: Sample<P>,
    anchor: G,
)
    requires
        state.last_of(source) matches Some(l) && l.tool != sample.tool,
    ensures
        state.activated(source, sample, false, anchor).1 == ActiveStep::<P, G>::Paint(None),
{
}

/// Resizing never paints: with shift held, an active sample only resizes.
pub proof fn lemma_resize_never_paints<P: Copy, G: Copy>(
    state: PaintInputState<P, G>,
    source: PointerSource,
    sample: Sample<P>,
    anchor: G,
)
    ensures
        state.activated(source, sample, true, anchor).1 is Resize,
{
}

/// The mouse and the pen draw separate strokes: a sample from one pointer,
/// painting or resizing, leaves the other pointer's stroke as it was.
pub proof fn lemma_pointers_keep_separate_strokes<P: Copy, G: Copy>(
    state: PaintInputState<P, G>,
    source: PointerSource,
    other: PointerSource,
    sample: Sample<P>,
    shift: bool,
    anchor: G,
)
    requires
        source != other,
    ensures
        state.activated(source, sample, shift, anchor).0.last_of(other) == state.last_of(other),
        state.with_last(source, Some(sample)).last_of(other) == state.last_of(other),
        state.ended(source).last_of(other) == state.last_of(other),
{
}

/// Lifting a pointer ends its resize gesture and its stroke: a gesture of that
/// pointer is gone and any other gesture stays, the pointer's last dab is
/// forgotten while the other pointer's is kept, the cursor is no longer down
/// if it follows that pointer, and the cursor and active tool stay.
pub proof fn lemma_lift_ends_gesture_and_stroke<P: Copy, G: Copy>(
    state: PaintInputState<P, G>,
    source: PointerSource,
    other: PointerSource,
)
    requires
        other != source,
    ensures
        (state.sizing matches Some(g) && g.source == source) ==> state.ended(source).sizing is None,
        !(state.sizing matches Some(g) && g.source == source) ==> state.ended(source).sizing
            == state.sizing,
        state.ended(source).last_of(source) is None,
        state.ended(source).last_of(other) == state.last_of(other),
        state.cursor_source == source ==> !state.ended(source).cursor_down,
        state.cursor_source != source ==> state.ended(source).cursor_down == state.cursor_down,
        state.ended(source).cursor == state.cursor,
        state.ended(source).cursor_source == state.cursor_source,
        state.ended(source).active_tool == state.active_tool,
        state.ended(source).pen_contact == state.pen_contact,
        state.ended(source).pen_barrel == state.pen_barrel,
{
}

/// Hovering makes the cursor follow the pointer, up, and makes the hovering
/// tool the active one; strokes, contact and gestures are untouched.
pub proof fn lemma_hover_follows_pointer<P: Copy, G: Copy>(
    state: PaintInputState<P, G>,
    source: PointerSource,
    sample: Sample<P>,
)
    ensures
        state.hovered(source, sample).cursor == Some(sample),
        state.hovered(source, sample).cursor_source == source,
        !state.hovered(source, sample).cursor_down,
        state.hovered(source, sample).active_tool == sample.tool,
        state.hovered(source, sample).mouse_last == state.mouse_last,
        state.hovered(source, sample).pen_last == state.pen_last,
        state.hovered(source, sample).sizing == state.sizing,
        state.hovered(source, sample).pen_contact == state.pen_contact,
        state.hovered(source, sample).pen_barrel == state.pen_barrel,
{
}

/// A pressed sample, painting or resizing, makes the cursor follow it, down,
/// with its tool active; shift decides between resizing and painting.
pub proof fn lemma_press_follows_pointer<P: Copy, G: Copy>(
    state: PaintInputState<P, G>,
    source: PointerSource,
    sample: Sample<P>,
    shift: bool,
    anchor: G,
)
    ensures
        state.activated(source, sample, shift, anchor).0.cursor == Some(sample),
        state.activated(source, sample, shift, anchor).0.cursor_source == source,
        state.activated(source, sample, shift, anchor).0.cursor_down,
        state.activated(source, sample, shift, anchor).0.active_tool == sample.tool,
        (state.activated(source, sample, shift, anchor).1 is Resize) == shift,
        state.activated(source, sample, shift, anchor).0.pen_contact == state.pen_contact,
        state.activated(source, sample, shift, anchor).0.pen_barrel == state.pen_barrel,
{
}

/// A pen sample erases exactly when the eraser tip is used or the barrel is
/// held, whether or not the tip touches, and keeps the pose it was made at.
pub proof fn lemma_pen_tool_follows_tip_and_barrel<P: Copy, G: Copy>(
    state: PaintInputState<P, G>,
    pose: P,
    eraser_tip: bool,
)
    ensures
        (state.pen_sample(pose, eraser_tip).tool == Tool::Eraser) == (eraser_tip || state.pen_barrel),
        (state.pen_sample(pose, eraser_tip).tool == Tool::Pen) == !(eraser_tip || state.pen_barrel),
        state.pen_sample(pose, eraser_tip).pose == pose,
{
}

} // verus!
