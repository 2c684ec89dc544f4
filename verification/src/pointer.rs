//! What the pointer is doing: selecting text here, or working a program that
//! asked for the mouse.

use crate::mouse::{Button, Tracking};
use crate::pane::PaneId;
use crate::selection::{mode_for_streak, next_streak, Click, Mode, Point, Selection};
use vstd::prelude::*;

verus! {

/// What a movement of the pointer comes to.
#[derive(Clone, Copy, PartialEq, Eq, Debug)]
pub enum MoveAction {
    /// The selection follows it.
    Extend,
    /// A program is to hear of it: the one a press was handed to, or else the
    /// one under the pointer.
    Report { owner: Option<PaneId>, held: Option<Button> },
    Nothing,
}

/// What letting go of the left button comes to.
#[derive(Clone, Copy, PartialEq, Eq, Debug, Structural)]
pub enum ReleaseAction {
    /// The program that saw the press must see the release.
    Report(PaneId),
    /// A click that never moved leaves nothing highlighted.
    Cleared,
    Nothing,
}

#[derive(Clone, Copy, Debug)]
pub struct Pointer {
    /// Selection in progress or finished, and the pane it belongs to.
    pub selection: Option<(PaneId, Selection)>,
    /// True while the left button is down, so motion extends the selection.
    pub dragging: bool,
    /// Set while a press has been handed to a program instead of starting a
    /// selection. Holds the pane it went to, so the motion and release that
    /// follow reach the same program even if the pointer wanders off it.
    pub reporting_drag: Option<PaneId>,
    /// Last left press, for turning repeats into word and line selection.
    pub last_click: Option<Click>,
    pub click_streak: u32,
}

impl Pointer {
    /// A press went to the program in `pane`.
    pub open spec fn reported(self, pane: Option<PaneId>) -> Pointer {
        Pointer { reporting_drag: pane, selection: None, ..self }
    }

    /// A selection starts with `span`.
    pub open spec fn began(self, pane: PaneId, span: (Point, Point), mode: Mode) -> Pointer {
        Pointer {
            selection: Some((pane, Selection { anchor: span, head: span, mode })),
            dragging: true,
            ..self
        }
    }

    /// The selection, if there is one, reaches to `span`.
    pub open spec fn stretched(self, span: (Point, Point)) -> Pointer {
        match self.selection {
            Some((pane, s)) => Pointer {
                selection: Some((pane, Selection { head: span, ..s })),
                ..self
            },
            None => self,
        }
    }

    /// Whether there is a selection with nothing in it.
    pub open spec fn idle(self) -> bool {
        match self.selection {
            Some((_, s)) => Selection::nothing_in(s.span()),
            None => false,
        }
    }

    /// What letting go of the left button comes to.
    pub open spec fn release_action(self) -> ReleaseAction {
        match self.reporting_drag {
            Some(owner) => ReleaseAction::Report(owner),
            None => if self.idle() { ReleaseAction::Cleared } else { ReleaseAction::Nothing },
        }
    }

    /// The left button is up.
    pub open spec fn let_go(self) -> Pointer {
        match self.reporting_drag {
            Some(_) => Pointer { reporting_drag: None, ..self },
            None => Pointer {
                dragging: false,
                selection: if self.idle() { None } else { self.selection },
                ..self
            },
        }
    }

    /// What a movement comes to for a program that asked for `tracking`.
    pub open spec fn move_action(self, tracking: Tracking) -> MoveAction {
        if self.dragging {
            MoveAction::Extend
        } else if tracking == Tracking::Off {
            MoveAction::Nothing
        } else {
            MoveAction::Report {
                owner: self.reporting_drag,
                held: match self.reporting_drag {
                    Some(_) => Some(Button::Left),
                    None => None,
                },
            }
        }
    }

    pub fn new() -> (p: Pointer)
        ensures
            p == (Pointer {
                selection: None,
                dragging: false,
                reporting_drag: None,
                last_click: None,
                click_streak: 0,
            }),
    {
        Pointer {
            selection: None,
            dragging: false,
            reporting_drag: None,
            last_click: None,
            click_streak: 0,
        }
    }

    /// The pane whose program a movement may concern: the one a press was
    /// handed to, or else the focused one.
    pub fn watched_pane(&self, focus: PaneId) -> (pane: PaneId)
        ensures
            pane == (match self.reporting_drag {
                Some(owner) => owner,
                None => focus,
            }),
    {
        match self.reporting_drag {
            Some(owner) => owner,
            None => focus,
        }
    }

    /// What a movement of the pointer comes to, `tracking` being what the
    /// watched pane's program asked for; tracking is off for every ordinary
    /// shell, and the pointer moves constantly.
    pub fn moved(&self, tracking: Tracking) -> (action: MoveAction)
        ensures
            action == self.move_action(tracking),
    {
        if self.dragging {
            return MoveAction::Extend;
        }
        if tracking == Tracking::Off {
            return MoveAction::Nothing;
        }
        match self.reporting_drag {
            Some(owner) => MoveAction::Report { owner: Some(owner), held: Some(Button::Left) },
            None => MoveAction::Report { owner: None, held: None },
        }
    }

    /// A left press went to the program in `pane`. It owns the pointer now; a
    /// stale highlight would just sit there.
    pub fn press_reported(&mut self, pane: Option<PaneId>)
        ensures
            *final(self) == old(self).reported(pane),
    {
        self.reporting_drag = pane;
        self.selection = None;
    }

    /// A left press that hit no cell: whatever was selected is not any more.
    pub fn press_missed(&mut self)
        ensures
            *final(self) == (Pointer { selection: None, ..*old(self) }),
    {
        self.selection = None;
    }

    /// Counts a left press on a cell. Repeat clicks in the same cell cycle
    /// through character, word and line.
    pub fn count_click(&mut self, click: Click) -> (mode: Mode)
        ensures
            ({
                let streak = if crate::selection::repeats(old(self).last_click, click)
                    && old(self).click_streak < u32::MAX {
                    old(self).click_streak + 1
                } else {
                    1
                };
                &&& *final(self) == (Pointer {
                    last_click: Some(click),
                    click_streak: streak as u32,
                    ..*old(self)
                })
                &&& mode == (if streak % 3 == 1 {
                    Mode::Char
                } else if streak % 3 == 2 {
                    Mode::Word
                } else {
                    Mode::Line
                })
            }),
    {
        self.click_streak = next_streak(self.last_click, self.click_streak, click);
        self.last_click = Some(click);
        mode_for_streak(self.click_streak)
    }

    /// Starts a selection with what a click selects.
    pub fn begin_selection(&mut self, pane: PaneId, span: (Point, Point), mode: Mode)
        ensures
            *final(self) == old(self).began(pane, span, mode),
    {
        self.selection = Some((pane, Selection::new(span, mode)));
        self.dragging = true;
    }

    /// Stretches the selection to where the pointer is now.
    pub fn extend_selection(&mut self, span: (Point, Point))
        ensures
            *final(self) == old(self).stretched(span),
    {
        if let Some((pane, s)) = self.selection {
            let mut stretched = s;
            stretched.extend_to(span);
            self.selection = Some((pane, stretched));
        }
    }

    /// The left button was let go.
    pub fn released(&mut self) -> (action: ReleaseAction)
        ensures
            action == old(self).release_action(),
            *final(self) == old(self).let_go(),
    {
        if let Some(owner) = self.reporting_drag {
            self.reporting_drag = None;
            return ReleaseAction::Report(owner);
        }
        self.dragging = false;
        let idle = match &self.selection {
            Some((_, s)) => s.is_empty(),
            None => false,
        };
        if idle {
            self.selection = None;
            return ReleaseAction::Cleared;
        }
        ReleaseAction::Nothing
    }

    /// The pane `id` was given another size. Row ids hold across a shrink, but
    /// not across a width change or a grow that outruns the history, so a live
    /// selection could end up pointing at something else.
    pub fn pane_resized(&mut self, id: PaneId)
        ensures
            *final(self) == (match old(self).selection {
                Some((pane, _)) if pane == id => Pointer {
                    selection: None,
                    dragging: false,
                    ..*old(self)
                },
                _ => *old(self),
            }),
    {
        if let Some((pane, _)) = self.selection {
            if pane == id {
                self.selection = None;
                self.dragging = false;
            }
        }
    }

    /// The selection of the pane `id`, if it is the one that has it.
    pub fn selection_in(&self, id: PaneId) -> (selection: Option<Selection>)
        ensures
            selection == (match self.selection {
                Some((pane, s)) if pane == id => Some(s),
                _ => None,
            }),
    {
        match self.selection {
            Some((pane, s)) => if pane == id { Some(s) } else { None },
            None => None,
        }
    }
}

/// The program that saw a press sees the movements and the release that follow,
/// and nothing after that.
pub proof fn law_release_goes_where_the_press_went(p: Pointer, pane: PaneId, tracking: Tracking)
    requires
        !p.dragging,
        tracking != Tracking::Off,
    ensures
        p.reported(Some(pane)).move_action(tracking) == (MoveAction::Report {
            owner: Some(pane),
            held: Some(Button::Left),
        }),
        p.reported(Some(pane)).release_action() == ReleaseAction::Report(pane),
        p.reported(Some(pane)).let_go().reporting_drag is None,
        p.reported(Some(pane)).let_go().move_action(tracking) == (MoveAction::Report {
            owner: None,
            held: None,
        }),
{
}

/// A click that never moved leaves nothing highlighted.
pub proof fn law_a_plain_click_selects_nothing(p: Pointer, pane: PaneId, at: Point)
    requires
        p.reporting_drag is None,
    ensures
        p.began(pane, (at, at), Mode::Char).release_action() == ReleaseAction::Cleared,
        p.began(pane, (at, at), Mode::Char).let_go().selection is None,
{
}

/// Letting go after a selection ends the drag and keeps what was selected.
pub proof fn law_release_keeps_the_selection(
    p: Pointer,
    pane: PaneId,
    span: (Point, Point),
    head: (Point, Point),
    mode: Mode,
)
    requires
        p.reporting_drag is None,
        !p.began(pane, span, mode).stretched(head).idle(),
    ensures
        p.began(pane, span, mode).stretched(head).let_go().selection == Some(
            (pane, Selection { anchor: span, head, mode }),
        ),
        !p.began(pane, span, mode).stretched(head).let_go().dragging,
{
}

/// A press on text starts a selection there in its pane, and movements stretch it
/// from where it started, whatever program is listening, until the button is let
/// go.
pub proof fn law_dragging_selects(
    p: Pointer,
    pane: PaneId,
    span: (Point, Point),
    head: (Point, Point),
    mode: Mode,
    tracking: Tracking,
)
    ensures
        ({
            let pressed = p.began(pane, span, mode);
            let dragged = pressed.stretched(head);
            &&& pressed.move_action(tracking) == MoveAction::Extend
            &&& dragged.move_action(tracking) == MoveAction::Extend
            &&& pressed.selection matches Some((owner, s))
            &&& owner == pane && s.anchor == span && s.head == span && s.mode == mode
            &&& dragged.selection matches Some((still, t))
            &&& still == pane && t.anchor == span && t.head == head && t.mode == mode
            &&& dragged.reporting_drag == p.reporting_drag
            &&& dragged.last_click == p.last_click && dragged.click_streak == p.click_streak
        }),
{
}

/// Without a button down, movements are nobody's business but that of a program
/// that asked for the mouse. A press that went to a program takes the selection
/// away.
pub proof fn law_moving_without_dragging(p: Pointer, pane: PaneId, tracking: Tracking)
    requires
        !p.dragging,
    ensures
        p.move_action(Tracking::Off) == MoveAction::Nothing,
        p.reporting_drag is None && tracking != Tracking::Off ==> p.move_action(tracking)
            == (MoveAction::Report { owner: None, held: None }),
        p.reported(Some(pane)).selection is None,
        p.reported(Some(pane)).reporting_drag == Some(pane),
{
}

} // verus!
