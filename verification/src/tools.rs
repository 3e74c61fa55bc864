use vstd::prelude::*;

use crate::watched::Watched;

verus! {

/// Where a pan started: the cursor and the view position at that moment.
pub struct PanOrigin<V> {
    pub cursor: V,
    pub position: V,
}

/// Where a zoom started.
pub struct ZoomOrigin<F> {
    pub initial_zoom: F,
    pub initial_y_ratio: F,
}

/// Where an orbit started.
pub struct OrbitInitial<F> {
    pub tilt: F,
    pub cursor_angle: F,
}

/// A rotation being dragged out.
pub struct RotateDraft<V> {
    pub center: V,
    pub initial_position: V,
}

/// A resize being dragged out.
pub struct ResizeDraft<V, L> {
    pub center: V,
    pub initial_distance: L,
}

/// The part of the colour picker being dragged.
#[derive(Clone, Copy, PartialEq, Eq, Structural, Debug)]
pub enum ColorSelectionPart {
    Hue,
    SaturationValue,
}

/// A tool, with whatever it is in the middle of. `S` is a stroke being drawn,
/// `V` a point of the canvas, `F` a scalar, `L` a length of the canvas and `X`
/// a point of the window.
pub enum Tool<S, V, F, L, X> {
    Draw { current_stroke: Option<S> },
    Select { origin: Option<V> },
    Pan { origin: Option<PanOrigin<V>> },
    Zoom { origin: Option<ZoomOrigin<F>> },
    Orbit { initial: Option<OrbitInitial<F>> },
    Move { origin: Option<V> },
    Rotate { origin: Option<RotateDraft<V>> },
    Resize { origin: Option<ResizeDraft<V, L>> },
    PickColor { cursor_physical_origin: X, part: Option<ColorSelectionPart> },
}

/// A request to take up or put down a tool that is only held while a key is.
pub enum TransientModeSwitch<X> {
    Pan { should_pan: bool },
    Zoom { should_zoom: bool },
    Orbit { should_orbit: bool },
    Color { center: Option<X> },
}

/// The chosen tool, and a tool held on top of it for the moment.
pub struct ModeStack<S, V, F, L, X> {
    pub base_mode: Tool<S, V, F, L, X>,
    pub transient_mode: Option<Tool<S, V, F, L, X>>,
    pub discarded_transformation_draft: Watched<()>,
}

/// The tool is in the middle of something that can be discarded.
pub open spec fn tool_is_drafting<S, V, F, L, X>(tool: Tool<S, V, F, L, X>) -> bool {
    match tool {
        Tool::Draw { current_stroke } => current_stroke is Some,
        Tool::Select { origin } => origin is Some,
        Tool::Move { origin } => origin is Some,
        Tool::Rotate { origin } => origin is Some,
        Tool::Resize { origin } => origin is Some,
        _ => false,
    }
}

/// The tool with its draft discarded.
pub open spec fn without_draft<S, V, F, L, X>(tool: Tool<S, V, F, L, X>) -> Tool<S, V, F, L, X> {
    match tool {
        Tool::Draw { .. } => Tool::Draw { current_stroke: None },
        Tool::Select { .. } => Tool::Select { origin: None },
        Tool::Move { .. } => Tool::Move { origin: None },
        Tool::Rotate { .. } => Tool::Rotate { origin: None },
        Tool::Resize { .. } => Tool::Resize { origin: None },
        _ => tool,
    }
}

/// The tool transforms the selection.
pub open spec fn is_transforming<S, V, F, L, X>(tool: Tool<S, V, F, L, X>) -> bool {
    tool is Move || tool is Rotate || tool is Resize
}

impl<S, V, F, L, X> ModeStack<S, V, F, L, X> {
    /// The tool in use: the held one if any, else the chosen one.
    pub open spec fn current(&self) -> Tool<S, V, F, L, X> {
        match self.transient_mode {
            Some(t) => t,
            None => self.base_mode,
        }
    }

    pub fn new(mode: Tool<S, V, F, L, X>) -> (r: Self)
        ensures
            r.base_mode == mode,
            r.transient_mode is None,
            r.discarded_transformation_draft.is_dirty(),
    {
        ModeStack { base_mode: mode, transient_mode: None, discarded_transformation_draft: Watched::new(()) }
    }

    pub fn get(&self) -> (r: &Tool<S, V, F, L, X>)
        ensures
            *r == self.current(),
    {
        match &self.transient_mode {
            Some(t) => t,
            None => &self.base_mode,
        }
    }

    pub fn get_mut(&mut self) -> (r: &mut Tool<S, V, F, L, X>)
        ensures
            *r == old(self).current(),
            final(self).current() == *final(r),
            final(self).discarded_transformation_draft == old(self).discarded_transformation_draft,
            old(self).transient_mode is Some ==> final(self).transient_mode == Some(*final(r)) && final(self).base_mode == old(self).base_mode,
            old(self).transient_mode is None ==> final(self).transient_mode is None && final(self).base_mode == *final(r),
    {
        match &mut self.transient_mode {
            Some(t) => t,
            None => &mut self.base_mode,
        }
    }
}


/// The held tool that `switch` takes up, if it takes one up.
pub open spec fn requested_tool<S, V, F, L, X>(switch: TransientModeSwitch<X>) -> Option<Tool<S, V, F, L, X>> {
    match switch {
        TransientModeSwitch::Pan { should_pan } => if should_pan { Some(Tool::Pan { origin: None }) } else { None },
        TransientModeSwitch::Zoom { should_zoom } => if should_zoom { Some(Tool::Zoom { origin: None }) } else { None },
        TransientModeSwitch::Orbit { should_orbit } => if should_orbit { Some(Tool::Orbit { initial: None }) } else { None },
        TransientModeSwitch::Color { center } => match center {
            Some(c) => Some(Tool::PickColor { cursor_physical_origin: c, part: None }),
            None => None,
        },
    }
}

/// The tool in use is of the kind that `switch` is about.
pub open spec fn same_kind<S, V, F, L, X>(switch: TransientModeSwitch<X>, tool: Tool<S, V, F, L, X>) -> bool {
    match switch {
        TransientModeSwitch::Pan { .. } => tool is Pan,
        TransientModeSwitch::Zoom { .. } => tool is Zoom,
        TransientModeSwitch::Orbit { .. } => tool is Orbit,
        TransientModeSwitch::Color { .. } => tool is PickColor,
    }
}

/// Which kind of held tool a switch is about.
pub open spec fn switch_kind<X>(switch: TransientModeSwitch<X>) -> int {
    match switch {
        TransientModeSwitch::Pan { .. } => 0,
        TransientModeSwitch::Zoom { .. } => 1,
        TransientModeSwitch::Orbit { .. } => 2,
        TransientModeSwitch::Color { .. } => 3,
    }
}

impl<S, V, F, L, X> ModeStack<S, V, F, L, X> {
    /// `after` is what `switch_transient(switch)` makes of `before`.
    pub open spec fn switched(before: Self, after: Self, switch: TransientModeSwitch<X>) -> bool {
        &&& after.base_mode == before.base_mode
        &&& after.discarded_transformation_draft == before.discarded_transformation_draft
        &&& after.transient_mode == match requested_tool::<S, V, F, L, X>(switch) {
            Some(tool) => if same_kind(switch, before.current()) { before.transient_mode } else { Some(tool) },
            None => if same_kind(switch, before.current()) { None } else { before.transient_mode },
        }
    }

    /// Taking up a held tool while only the chosen tool is in use, and then
    /// putting it down, returns to the chosen tool.
    pub proof fn law_hold_then_release(
        m0: Self,
        m1: Self,
        m2: Self,
        hold: TransientModeSwitch<X>,
        release: TransientModeSwitch<X>,
    )
        requires
            m0.transient_mode is None,
            requested_tool::<S, V, F, L, X>(hold) is Some,
            requested_tool::<S, V, F, L, X>(release) is None,
            switch_kind(hold) == switch_kind(release),
            Self::switched(m0, m1, hold),
            Self::switched(m1, m2, release),
        ensures
            m2.transient_mode is None,
            m2.base_mode == m0.base_mode,
            m2.current() == m0.current(),
            m2.discarded_transformation_draft == m0.discarded_transformation_draft,
    {
    }

    /// Takes up the held tool that `switch` asks for, unless a tool of that kind
    /// is already in use; or, when `switch` asks to put it down and a tool of
    /// that kind is in use, goes back to the chosen tool.
    pub fn switch_transient(&mut self, switch: TransientModeSwitch<X>)
        ensures
            Self::switched(*old(self), *final(self), switch),
    {
        match switch {
            TransientModeSwitch::Pan { should_pan } => {
                let is_pan = match self.get() {
                    Tool::Pan { .. } => true,
                    _ => false,
                };
                if should_pan {
                    if !is_pan {
                        self.transient_mode = Some(Tool::Pan { origin: None });
                    }
                } else if is_pan {
                    self.transient_mode = None;
                }
            },
            TransientModeSwitch::Zoom { should_zoom } => {
                let is_zoom = match self.get() {
                    Tool::Zoom { .. } => true,
                    _ => false,
                };
                if should_zoom {
                    if !is_zoom {
                        self.transient_mode = Some(Tool::Zoom { origin: None });
                    }
                } else if is_zoom {
                    self.transient_mode = None;
                }
            },
            TransientModeSwitch::Orbit { should_orbit } => {
                let is_orbit = match self.get() {
                    Tool::Orbit { .. } => true,
                    _ => false,
                };
                if should_orbit {
                    if !is_orbit {
                        self.transient_mode = Some(Tool::Orbit { initial: None });
                    }
                } else if is_orbit {
                    self.transient_mode = None;
                }
            },
            TransientModeSwitch::Color { center } => {
                let is_color = match self.get() {
                    Tool::PickColor { .. } => true,
                    _ => false,
                };
                match center {
                    Some(center) => {
                        if !is_color {
                            self.transient_mode = Some(Tool::PickColor { cursor_physical_origin: center, part: None });
                        }
                    },
                    None => {
                        if is_color {
                            self.transient_mode = None;
                        }
                    },
                }
            },
        }
    }

    /// Marks the selection's pending transformation as discarded if the tool
    /// in use transforms the selection.
    pub fn invalidate_base_transformation_draft(&mut self)
        ensures
            final(self).base_mode == old(self).base_mode,
            final(self).transient_mode == old(self).transient_mode,
            final(self).discarded_transformation_draft.value() == old(self).discarded_transformation_draft.value(),
            final(self).discarded_transformation_draft.is_dirty() == (old(self).discarded_transformation_draft.is_dirty()
                || is_transforming(old(self).current())),
    {
        let transforming = match self.get() {
            Tool::Move { .. } | Tool::Rotate { .. } | Tool::Resize { .. } => true,
            _ => false,
        };
        if transforming {
            self.discarded_transformation_draft.invalidate();
        }
    }

    /// Whether the tool in use is in the middle of something.
    pub fn is_drafting(&mut self) -> (r: bool)
        ensures
            r == tool_is_drafting(old(self).current()),
            final(self).base_mode == old(self).base_mode,
            final(self).transient_mode == old(self).transient_mode,
            final(self).discarded_transformation_draft == old(self).discarded_transformation_draft,
    {
        match self.get() {
            Tool::Draw { current_stroke } => current_stroke.is_some(),
            Tool::Select { origin } => origin.is_some(),
            Tool::Move { origin } => origin.is_some(),
            Tool::Rotate { origin } => origin.is_some(),
            Tool::Resize { origin } => origin.is_some(),
            _ => false,
        }
    }

    /// `after` is `before` with the draft of the tool in use dropped.
    pub open spec fn draft_discarded(before: Self, after: Self) -> bool {
        &&& after.current() == without_draft(before.current())
        &&& !tool_is_drafting(after.current())
        &&& before.transient_mode is Some ==> after.base_mode == before.base_mode
        &&& before.transient_mode is None ==> after.transient_mode is None
        &&& after.discarded_transformation_draft.value() == before.discarded_transformation_draft.value()
        &&& after.discarded_transformation_draft.is_dirty() == (before.discarded_transformation_draft.is_dirty()
            || is_transforming(before.current()))
    }

    /// Drops whatever the tool in use is in the middle of.
    pub fn discard_draft(&mut self)
        ensures
            Self::draft_discarded(*old(self), *final(self)),
    {
        let tool = self.get_mut();
        match tool {
            Tool::Draw { current_stroke } => *current_stroke = None,
            Tool::Select { origin } => *origin = None,
            Tool::Move { origin } => *origin = None,
            Tool::Rotate { origin } => *origin = None,
            Tool::Resize { origin } => *origin = None,
            _ => {},
        }
        self.invalidate_base_transformation_draft();
    }

    /// The stroke being drawn with the chosen tool, if any.
    pub fn current_stroke(&self) -> (r: Option<&S>)
        ensures
            r == match self.base_mode {
                Tool::Draw { current_stroke } => match current_stroke {
                    Some(s) => Some(&s),
                    None => None,
                },
                _ => None,
            },
    {
        match &self.base_mode {
            Tool::Draw { current_stroke } => match current_stroke {
                Some(s) => Some(s),
                None => None,
            },
            _ => None,
        }
    }
}


impl<S, V, F, L, X> ModeStack<S, V, F, L, X> {
    /// Chooses the select tool, unless it is already chosen; a pending
    /// transformation of the selection is discarded.
    pub fn switch_select(&mut self)
        ensures
            old(self).base_mode is Select ==> *final(self) == *old(self),
            !(old(self).base_mode is Select) ==> {
                &&& final(self).base_mode == Tool::<S, V, F, L, X>::Select { origin: None }
                &&& final(self).transient_mode == old(self).transient_mode
                &&& final(self).discarded_transformation_draft.value() == old(self).discarded_transformation_draft.value()
                &&& final(self).discarded_transformation_draft.is_dirty() == (old(self).discarded_transformation_draft.is_dirty()
                    || is_transforming(old(self).current()))
            },
    {
        let is_chosen = match self.base_mode {
            Tool::Select { .. } => true,
            _ => false,
        };
        if !is_chosen {
            self.invalidate_base_transformation_draft();
            self.base_mode = Tool::Select { origin: None };
        }
    }

    /// Chooses the draw tool, unless it is already chosen; a pending
    /// transformation of the selection is discarded.
    pub fn switch_draw(&mut self)
        ensures
            old(self).base_mode is Draw ==> *final(self) == *old(self),
            !(old(self).base_mode is Draw) ==> {
                &&& final(self).base_mode == Tool::<S, V, F, L, X>::Draw { current_stroke: None }
                &&& final(self).transient_mode == old(self).transient_mode
                &&& final(self).discarded_transformation_draft.value() == old(self).discarded_transformation_draft.value()
                &&& final(self).discarded_transformation_draft.is_dirty() == (old(self).discarded_transformation_draft.is_dirty()
                    || is_transforming(old(self).current()))
            },
    {
        let is_chosen = match self.base_mode {
            Tool::Draw { .. } => true,
            _ => false,
        };
        if !is_chosen {
            self.invalidate_base_transformation_draft();
            self.base_mode = Tool::Draw { current_stroke: None };
        }
    }

    /// Chooses the move tool, unless it is already chosen; a pending
    /// transformation of the selection is discarded.
    pub fn switch_move(&mut self)
        ensures
            old(self).base_mode is Move ==> *final(self) == *old(self),
            !(old(self).base_mode is Move) ==> {
                &&& final(self).base_mode == Tool::<S, V, F, L, X>::Move { origin: None }
                &&& final(self).transient_mode == old(self).transient_mode
                &&& final(self).discarded_transformation_draft.value() == old(self).discarded_transformation_draft.value()
                &&& final(self).discarded_transformation_draft.is_dirty() == (old(self).discarded_transformation_draft.is_dirty()
                    || is_transforming(old(self).current()))
            },
    {
        let is_chosen = match self.base_mode {
            Tool::Move { .. } => true,
            _ => false,
        };
        if !is_chosen {
            self.invalidate_base_transformation_draft();
            self.base_mode = Tool::Move { origin: None };
        }
    }

    /// Chooses the rotate tool, unless it is already chosen; a pending
    /// transformation of the selection is discarded.
    pub fn switch_rotate(&mut self)
        ensures
            old(self).base_mode is Rotate ==> *final(self) == *old(self),
            !(old(self).base_mode is Rotate) ==> {
                &&& final(self).base_mode == Tool::<S, V, F, L, X>::Rotate { origin: None }
                &&& final(self).transient_mode == old(self).transient_mode
                &&& final(self).discarded_transformation_draft.value() == old(self).discarded_transformation_draft.value()
                &&& final(self).discarded_transformation_draft.is_dirty() == (old(self).discarded_transformation_draft.is_dirty()
                    || is_transforming(old(self).current()))
            },
    {
        let is_chosen = match self.base_mode {
            Tool::Rotate { .. } => true,
            _ => false,
        };
        if !is_chosen {
            self.invalidate_base_transformation_draft();
            self.base_mode = Tool::Rotate { origin: None };
        }
    }

    /// Chooses the resize tool, unless it is already chosen; a pending
    /// transformation of the selection is discarded.
    pub fn switch_resize(&mut self)
        ensures
            old(self).base_mode is Resize ==> *final(self) == *old(self),
            !(old(self).base_mode is Resize) ==> {
                &&& final(self).base_mode == Tool::<S, V, F, L, X>::Resize { origin: None }
                &&& final(self).transient_mode == old(self).transient_mode
                &&& final(self).discarded_transformation_draft.value() == old(self).discarded_transformation_draft.value()
                &&& final(self).discarded_transformation_draft.is_dirty() == (old(self).discarded_transformation_draft.is_dirty()
                    || is_transforming(old(self).current()))
            },
    {
        let is_chosen = match self.base_mode {
            Tool::Resize { .. } => true,
            _ => false,
        };
        if !is_chosen {
            self.invalidate_base_transformation_draft();
            self.base_mode = Tool::Resize { origin: None };
        }
    }
}

/// What the tool in use does with the primary button in one frame.
#[derive(Clone, Copy, PartialEq, Eq, Structural, Debug)]
pub enum DragPhase {
    /// Nothing is being dragged.
    Idle,
    /// A drag starts now.
    Start,
    /// A drag goes on.
    Hold,
    /// A drag ends now and its result is to be applied.
    Commit,
    /// A drag ends now and leaves nothing behind.
    Release,
}

/// The tool holds something it started with the primary button.
pub open spec fn tool_is_dragging<S, V, F, L, X>(tool: Tool<S, V, F, L, X>) -> bool {
    match tool {
        Tool::Draw { current_stroke } => current_stroke is Some,
        Tool::Select { origin } => origin is Some,
        Tool::Pan { origin } => origin is Some,
        Tool::Zoom { origin } => origin is Some,
        Tool::Orbit { initial } => initial is Some,
        Tool::Move { origin } => origin is Some,
        Tool::Rotate { origin } => origin is Some,
        Tool::Resize { origin } => origin is Some,
        Tool::PickColor { part, .. } => part is Some,
    }
}

/// The view tools start a drag whenever the button is down; the others only
/// on the frame it goes down.
pub open spec fn starts_on_any_press<S, V, F, L, X>(tool: Tool<S, V, F, L, X>) -> bool {
    tool is Pan || tool is Zoom || tool is Orbit
}

/// The tools whose drags leave something behind when they end.
pub open spec fn commits_on_release<S, V, F, L, X>(tool: Tool<S, V, F, L, X>) -> bool {
    tool is Draw || tool is Select || tool is Move || tool is Rotate || tool is Resize
}

/// The phase of the drag of `tool` when the primary button is down or up and
/// has or has not just changed.
pub open spec fn drag_phase_of<S, V, F, L, X>(tool: Tool<S, V, F, L, X>, is_pressed: bool, is_fresh: bool) -> DragPhase {
    if is_pressed {
        if tool_is_dragging(tool) {
            DragPhase::Hold
        } else if is_fresh || starts_on_any_press(tool) {
            DragPhase::Start
        } else {
            DragPhase::Idle
        }
    } else if tool_is_dragging(tool) {
        if commits_on_release(tool) {
            DragPhase::Commit
        } else {
            DragPhase::Release
        }
    } else {
        DragPhase::Idle
    }
}

impl<S, V, F, L, X> ModeStack<S, V, F, L, X> {
    /// What the tool in use does with the primary button in this frame, given
    /// whether the button is down and whether that changed in this frame.
    pub fn drag_phase(&self, is_pressed: bool, is_fresh: bool) -> (r: DragPhase)
        ensures
            r == drag_phase_of(self.current(), is_pressed, is_fresh),
    {
        let (is_dragging, on_any_press, commits) = match self.get() {
            Tool::Draw { current_stroke } => (current_stroke.is_some(), false, true),
            Tool::Select { origin } => (origin.is_some(), false, true),
            Tool::Pan { origin } => (origin.is_some(), true, false),
            Tool::Zoom { origin } => (origin.is_some(), true, false),
            Tool::Orbit { initial } => (initial.is_some(), true, false),
            Tool::Move { origin } => (origin.is_some(), false, true),
            Tool::Rotate { origin } => (origin.is_some(), false, true),
            Tool::Resize { origin } => (origin.is_some(), false, true),
            Tool::PickColor { part, .. } => (part.is_some(), false, false),
        };
        if is_pressed {
            if is_dragging {
                DragPhase::Hold
            } else if is_fresh || on_any_press {
                DragPhase::Start
            } else {
                DragPhase::Idle
            }
        } else if is_dragging {
            if commits {
                DragPhase::Commit
            } else {
                DragPhase::Release
            }
        } else {
            DragPhase::Idle
        }
    }
}

/// A drag of a tool that edits the canvas (drawing, selecting, moving,
/// rotating, resizing) goes on while the button is held and is committed when
/// it is let go; a drag of a view tool or of the colour picker is only
/// released. With no drag under way, a fresh press starts one with any tool,
/// a held button keeps starting one with the view tools (pan, zoom, orbit)
/// and does nothing with the others, and a button that is up does nothing.
pub proof fn law_drag_phases<S, V, F, L, X>(tool: Tool<S, V, F, L, X>, is_fresh: bool)
    ensures
        tool matches Tool::Draw { current_stroke: Some(_) } ==> drag_phase_of(tool, false, is_fresh) == DragPhase::Commit,
        tool matches Tool::Select { origin: Some(_) } ==> drag_phase_of(tool, false, is_fresh) == DragPhase::Commit,
        tool matches Tool::Move { origin: Some(_) } ==> drag_phase_of(tool, false, is_fresh) == DragPhase::Commit,
        tool matches Tool::Rotate { origin: Some(_) } ==> drag_phase_of(tool, false, is_fresh) == DragPhase::Commit,
        tool matches Tool::Resize { origin: Some(_) } ==> drag_phase_of(tool, false, is_fresh) == DragPhase::Commit,
        tool matches Tool::Pan { origin: Some(_) } ==> drag_phase_of(tool, false, is_fresh) == DragPhase::Release,
        tool matches Tool::Zoom { origin: Some(_) } ==> drag_phase_of(tool, false, is_fresh) == DragPhase::Release,
        tool matches Tool::Orbit { initial: Some(_) } ==> drag_phase_of(tool, false, is_fresh) == DragPhase::Release,
        tool matches Tool::PickColor { part: Some(_), .. } ==> drag_phase_of(tool, false, is_fresh) == DragPhase::Release,
        (tool matches Tool::Draw { current_stroke: Some(_) } || tool matches Tool::Select { origin: Some(_) }
            || tool matches Tool::Move { origin: Some(_) } || tool matches Tool::Rotate { origin: Some(_) }
            || tool matches Tool::Resize { origin: Some(_) } || tool matches Tool::Pan { origin: Some(_) }
            || tool matches Tool::Zoom { origin: Some(_) } || tool matches Tool::Orbit { initial: Some(_) }
            || tool matches Tool::PickColor { part: Some(_), .. }) ==> drag_phase_of(tool, true, is_fresh) == DragPhase::Hold,
        (tool matches Tool::Draw { current_stroke: None } || tool matches Tool::Select { origin: None }
            || tool matches Tool::Move { origin: None } || tool matches Tool::Rotate { origin: None }
            || tool matches Tool::Resize { origin: None } || tool matches Tool::Pan { origin: None }
            || tool matches Tool::Zoom { origin: None } || tool matches Tool::Orbit { initial: None }
            || tool matches Tool::PickColor { part: None, .. }) ==> {
            &&& drag_phase_of(tool, true, true) == DragPhase::Start
            &&& drag_phase_of(tool, false, is_fresh) == DragPhase::Idle
        },
        (tool matches Tool::Pan { origin: None } || tool matches Tool::Zoom { origin: None } || tool matches Tool::Orbit { initial: None })
            ==> drag_phase_of(tool, true, false) == DragPhase::Start,
        (tool matches Tool::Draw { current_stroke: None } || tool matches Tool::Select { origin: None }
            || tool matches Tool::Move { origin: None } || tool matches Tool::Rotate { origin: None }
            || tool matches Tool::Resize { origin: None } || tool matches Tool::PickColor { part: None, .. })
            ==> drag_phase_of(tool, true, false) == DragPhase::Idle,
{
}

/// A tool that holds an uncommitted drag (a stroke being drawn, or a
/// selection, move, rotation or resize with its origin) is drafting, so undo
/// and redo drop that drag and leave the canvas alone; a tool with no such drag,
/// and the view tools and the colour picker, are not.
pub proof fn law_drafting_tools<S, V, F, L, X>(tool: Tool<S, V, F, L, X>)
    ensures
        tool matches Tool::Draw { current_stroke: Some(_) } ==> tool_is_drafting(tool),
        tool matches Tool::Select { origin: Some(_) } ==> tool_is_drafting(tool),
        tool matches Tool::Move { origin: Some(_) } ==> tool_is_drafting(tool),
        tool matches Tool::Rotate { origin: Some(_) } ==> tool_is_drafting(tool),
        tool matches Tool::Resize { origin: Some(_) } ==> tool_is_drafting(tool),
        (tool matches Tool::Draw { current_stroke: None } || tool matches Tool::Select { origin: None }
            || tool matches Tool::Move { origin: None } || tool matches Tool::Rotate { origin: None }
            || tool matches Tool::Resize { origin: None } || tool is Pan || tool is Zoom || tool is Orbit
            || tool is PickColor) ==> !tool_is_drafting(tool),
        tool_is_drafting(tool) ==> !tool_is_drafting(without_draft(tool)),
        tool matches Tool::Move { .. } ==> without_draft(tool) == (Tool::<S, V, F, L, X>::Move { origin: None }),
        tool matches Tool::Rotate { .. } ==> without_draft(tool) == (Tool::<S, V, F, L, X>::Rotate { origin: None }),
        tool matches Tool::Resize { .. } ==> without_draft(tool) == (Tool::<S, V, F, L, X>::Resize { origin: None }),
        tool matches Tool::Select { .. } ==> without_draft(tool) == (Tool::<S, V, F, L, X>::Select { origin: None }),
        tool matches Tool::Draw { .. } ==> without_draft(tool) == (Tool::<S, V, F, L, X>::Draw { current_stroke: None }),
{
}

} // verus!
