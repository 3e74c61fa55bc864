use vstd::prelude::*;

use crate::tools::{ModeStack, Tool};

verus! {

/// The open canvases, the one being shown, and the tools in use. `C` is a
/// canvas; the other parameters are those of the tools.
pub struct Multicanvas<C, S, V, F, L, X> {
    pub is_debug_mode_on: bool,
    pub canvases: Vec<C>,
    /// Which canvas is shown; `None` only when there is none.
    pub current_canvas_index: Option<usize>,
    pub was_canvas_saved: bool,
    pub mode_stack: ModeStack<S, V, F, L, X>,
}

impl<C, S, V, F, L, X> Multicanvas<C, S, V, F, L, X> {
    /// The canvas being shown, if the index names one.
    pub open spec fn current(&self) -> Option<C> {
        match self.current_canvas_index {
            Some(i) => if i < self.canvases@.len() {
                Some(self.canvases@[i as int])
            } else {
                None
            },
            None => None,
        }
    }

    /// No canvas, with the draw tool chosen.
    pub fn new() -> (r: Self)
        ensures
            !r.is_debug_mode_on,
            r.canvases@.len() == 0,
            r.current_canvas_index == None::<usize>,
            !r.was_canvas_saved,
            r.mode_stack.base_mode == (Tool::<S, V, F, L, X>::Draw { current_stroke: None }),
            r.mode_stack.transient_mode == None::<Tool<S, V, F, L, X>>,
    {
        Multicanvas {
            is_debug_mode_on: false,
            canvases: Vec::new(),
            current_canvas_index: None,
            was_canvas_saved: false,
            mode_stack: ModeStack::new(Tool::Draw { current_stroke: None }),
        }
    }

    pub fn current_canvas(&self) -> (r: Option<&C>)
        ensures
            r == match self.current() {
                Some(c) => Some(&c),
                None => None,
            },
    {
        match self.current_canvas_index {
            Some(i) => if i < self.canvases.len() {
                Some(&self.canvases[i])
            } else {
                None
            },
            None => None,
        }
    }

    pub fn current_canvas_mut(&mut self) -> (r: Option<&mut C>)
        ensures
            match old(self).current() {
                Some(c) => r matches Some(m) && *m == c && final(self).canvases@ == old(self).canvases@.update(
                    old(self).current_canvas_index.unwrap() as int,
                    *final(m),
                ),
                None => r is None && final(self).canvases@ == old(self).canvases@,
            },
            final(self).current_canvas_index == old(self).current_canvas_index,
            final(self).mode_stack == old(self).mode_stack,
            final(self).is_debug_mode_on == old(self).is_debug_mode_on,
            final(self).was_canvas_saved == old(self).was_canvas_saved,
    {
        match self.current_canvas_index {
            Some(i) => if i < self.canvases.len() {
                Some(&mut self.canvases[i])
            } else {
                None
            },
            None => None,
        }
    }
}

} // verus!
