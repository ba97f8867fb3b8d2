//! The application state: the story list, a selection cursor and a scrolling
//! viewport over it, kept consistent as the list is replaced, the cursor moves
//! and the display is resized.

use vstd::prelude::*;
use crate::story::Story;

verus! {

/// Rows that a jump up or down moves the cursor by.
pub const JUMP_ROWS: usize = 10;

/// The cursor and viewport of the state, with the list length they range over.
pub struct Viewport {
    pub cursor: nat,
    pub offset: nat,
    pub height: nat,
    pub len: nat,
}

/// A change to the viewport: a navigation command, a resize to a new height,
/// or the list being replaced by one of a new length.
pub enum Nav {
    Up,
    Down,
    JumpUp,
    JumpDown,
    Top,
    Bottom,
    Resize(nat),
    Replace(nat),
}

/// The largest offset at which the viewport is still filled.
pub open spec fn max_offset(len: nat, height: nat) -> nat {
    if len > height {
        (len - height) as nat
    } else {
        0
    }
}

/// The last position of a list of `len` items, or 0 when it is empty.
pub open spec fn last_index(len: nat) -> nat {
    if len > 0 {
        (len - 1) as nat
    } else {
        0
    }
}

/// The cursor and the offset agree with each other and with the list: the
/// cursor is on an item, the viewport shows it and is never scrolled past the
/// end; an empty list has both at zero.
pub open spec fn valid(v: Viewport) -> bool {
    &&& v.height >= 1
    &&& v.len == 0 ==> v.cursor == 0 && v.offset == 0
    &&& v.len > 0 ==> {
        &&& v.cursor < v.len
        &&& v.offset <= v.cursor
        &&& v.cursor < v.offset + v.height
        &&& v.offset <= max_offset(v.len, v.height)
    }
}

/// Moves the offset the least that brings the cursor into view, then keeps
/// the viewport from being scrolled past the end of the list.
pub open spec fn reclamp(v: Viewport) -> Viewport {
    let o1 = if v.offset <= v.cursor {
        v.offset
    } else {
        v.cursor
    };
    let o2 = if v.cursor + 1 >= v.height && o1 < v.cursor + 1 - v.height {
        (v.cursor + 1 - v.height) as nat
    } else {
        o1
    };
    let o3 = if o2 <= max_offset(v.len, v.height) {
        o2
    } else {
        max_offset(v.len, v.height)
    };
    Viewport { offset: o3, ..v }
}

/// The viewport after `v` at cursor `c`.
pub open spec fn with_cursor(v: Viewport, c: nat) -> Viewport {
    reclamp(Viewport { cursor: c, ..v })
}

/// The viewport after one change.
pub open spec fn step(v: Viewport, op: Nav) -> Viewport {
    match op {
        Nav::Up => with_cursor(v, if v.cursor > 0 { (v.cursor - 1) as nat } else { 0 }),
        Nav::Down => with_cursor(
            v,
            if v.len == 0 {
                v.cursor
            } else if v.cursor + 1 <= v.len - 1 {
                (v.cursor + 1) as nat
            } else {
                (v.len - 1) as nat
            },
        ),
        Nav::JumpUp => with_cursor(
            v,
            if v.cursor >= JUMP_ROWS { (v.cursor - JUMP_ROWS) as nat } else { 0 },
        ),
        Nav::JumpDown => with_cursor(
            v,
            if v.cursor + JUMP_ROWS < v.len { (v.cursor + JUMP_ROWS) as nat } else { last_index(v.len) },
        ),
        Nav::Top => with_cursor(v, 0),
        Nav::Bottom => with_cursor(v, last_index(v.len)),
        Nav::Resize(h) => reclamp(Viewport { height: h, ..v }),
        Nav::Replace(n) => Viewport { cursor: 0, offset: 0, len: n, ..v },
    }
}

/// The viewport after the changes of `ops`, in order.
pub open spec fn run(v: Viewport, ops: Seq<Nav>) -> Viewport
    decreases ops.len(),
{
    if ops.len() == 0 {
        v
    } else {
        run(step(v, ops[0]), ops.skip(1))
    }
}

/// A change that the state accepts: a display is at least one row high.
pub open spec fn admissible(op: Nav) -> bool {
    match op {
        Nav::Resize(h) => h >= 1,
        _ => true,
    }
}

/// Bringing a cursor that is on an item (or at zero on an empty list) into
/// view gives a valid viewport.
proof fn lemma_reclamp_valid(v: Viewport)
    requires
        v.height >= 1,
        v.len == 0 ==> v.cursor == 0,
        v.len > 0 ==> v.cursor < v.len,
    ensures
        valid(reclamp(v)),
{
}

/// A valid viewport is left as it is by `reclamp`.
proof fn lemma_reclamp_keeps_valid(v: Viewport)
    requires
        valid(v),
    ensures
        reclamp(v) == v,
{
}

/// Each admissible change keeps the viewport valid.
pub proof fn lemma_step_valid(v: Viewport, op: Nav)
    requires
        valid(v),
        admissible(op),
    ensures
        valid(step(v, op)),
{
    match op {
        Nav::Up => lemma_reclamp_valid(Viewport { cursor: if v.cursor > 0 { (v.cursor - 1) as nat } else { 0 }, ..v }),
        Nav::Down => lemma_reclamp_valid(
            Viewport {
                cursor: if v.len == 0 {
                    v.cursor
                } else if v.cursor + 1 <= v.len - 1 {
                    (v.cursor + 1) as nat
                } else {
                    (v.len - 1) as nat
                },
                ..v
            },
        ),
        Nav::JumpUp => lemma_reclamp_valid(
            Viewport { cursor: if v.cursor >= JUMP_ROWS { (v.cursor - JUMP_ROWS) as nat } else { 0 }, ..v },
        ),
        Nav::JumpDown => lemma_reclamp_valid(
            Viewport {
                cursor: if v.cursor + JUMP_ROWS < v.len { (v.cursor + JUMP_ROWS) as nat } else { last_index(v.len) },
                ..v
            },
        ),
        Nav::Top => lemma_reclamp_valid(Viewport { cursor: 0, ..v }),
        Nav::Bottom => lemma_reclamp_valid(Viewport { cursor: last_index(v.len), ..v }),
        Nav::Resize(h) => lemma_reclamp_valid(Viewport { height: h, ..v }),
        Nav::Replace(n) => {},
    }
}

/// After any finite sequence of navigation commands, resizes to at least one
/// row and list replacements, the cursor is on an item, the viewport shows it
/// (`offset <= cursor < offset + height`) and is not scrolled past the end
/// (`offset <= max(0, len - height)`); on an empty list both are zero.
pub proof fn lemma_valid_after_any_sequence(v: Viewport, ops: Seq<Nav>)
    requires
        valid(v),
        forall|i: int| 0 <= i < ops.len() ==> admissible(#[trigger] ops[i]),
    ensures
        valid(run(v, ops)),
    decreases ops.len(),
{
    if ops.len() > 0 {
        lemma_step_valid(v, ops[0]);
        assert forall|i: int| 0 <= i < ops.skip(1).len() implies admissible(#[trigger] ops.skip(1)[i]) by {
            assert(ops.skip(1)[i] == ops[i + 1]);
        }
        lemma_valid_after_any_sequence(step(v, ops[0]), ops.skip(1));
    }
}

/// A jump down never passes the last story and lands on it whenever fewer
/// than `JUMP_ROWS` stories lie below the cursor; a jump up never passes the
/// first story and lands on it whenever the cursor is within `JUMP_ROWS` of
/// it. Once a jump has reached its end, a further jump the same way changes
/// nothing.
pub proof fn lemma_jumps_clamp(v: Viewport)
    requires
        valid(v),
    ensures
        step(v, Nav::JumpDown).cursor <= last_index(v.len),
        v.cursor + JUMP_ROWS >= v.len ==> step(v, Nav::JumpDown).cursor == last_index(v.len),
        v.cursor < JUMP_ROWS ==> step(v, Nav::JumpUp).cursor == 0,
        step(v, Nav::JumpDown).cursor == last_index(v.len) ==> step(
            step(v, Nav::JumpDown),
            Nav::JumpDown,
        ) == step(v, Nav::JumpDown),
        step(v, Nav::JumpUp).cursor == 0 ==> step(step(v, Nav::JumpUp), Nav::JumpUp) == step(
            v,
            Nav::JumpUp,
        ),
{
    let d = step(v, Nav::JumpDown);
    let u = step(v, Nav::JumpUp);
    lemma_step_valid(v, Nav::JumpDown);
    lemma_step_valid(v, Nav::JumpUp);
    if d.cursor == last_index(v.len) {
        assert(Viewport { cursor: last_index(d.len), ..d } == d);
        lemma_reclamp_keeps_valid(d);
    }
    if u.cursor == 0 {
        assert(Viewport { cursor: 0, ..u } == u);
        lemma_reclamp_keeps_valid(u);
    }
}

/// On an empty list every navigation command and resize leaves the cursor and
/// the offset at zero, as does a replacement of the list.
pub proof fn lemma_empty_list_stays_at_origin(v: Viewport, op: Nav)
    requires
        valid(v),
        v.len == 0,
        admissible(op),
    ensures
        step(v, op).cursor == 0,
        step(v, op).offset == 0,
{
    lemma_step_valid(v, op);
}

/// The application state.
pub struct App {
    /// The stories of the last completed fetch cycle, in rank order.
    pub stories: Vec<Story>,
    /// Position of the selected story.
    pub cur_index: usize,
    /// Position of the first story in view.
    pub offset: usize,
    /// Rows of stories that the display shows.
    pub height: usize,
    /// Whether a fetch cycle is in flight.
    pub is_loading: bool,
}

impl View for App {
    type V = Viewport;

    open spec fn view(&self) -> Viewport {
        Viewport {
            cursor: self.cur_index as nat,
            offset: self.offset as nat,
            height: self.height as nat,
            len: self.stories@.len(),
        }
    }
}

impl Default for App {
    /// No stories, nothing loading, and a viewport one row high until the
    /// display reports its size.
    fn default() -> (r: Self)
        ensures
            r.wf(),
            r.stories@.len() == 0,
            r.cur_index == 0,
            r.offset == 0,
            r.height == 1,
            !r.is_loading,
    {
        App { stories: Vec::new(), cur_index: 0, offset: 0, height: 1, is_loading: false }
    }
}

impl App {
    pub open spec fn wf(&self) -> bool {
        valid(self@)
    }

    /// Marks a fetch cycle as started; the list, cursor and viewport stay as
    /// they are until it completes.
    pub fn start_loading(&mut self)
        ensures
            final(self).is_loading,
            final(self)@ == old(self)@,
            final(self).stories@ == old(self).stories@,
    {
        self.is_loading = true;
    }

    /// Replaces the list with the outcome of a completed fetch cycle and
    /// selects its first story.
    pub fn loaded(&mut self, stories: Vec<Story>)
        requires
            old(self).wf(),
        ensures
            final(self).wf(),
            !final(self).is_loading,
            final(self).stories@ == stories@,
            final(self)@ == step(old(self)@, Nav::Replace(stories@.len())),
    {
        self.cur_index = 0;
        self.offset = 0;
        self.stories = stories;
        self.is_loading = false;
    }

    /// Applies `reclamp` to the offset.
    fn reclamp_viewport(&mut self)
        requires
            old(self).height >= 1,
            old(self).stories@.len() == 0 ==> old(self).cur_index == 0,
            old(self).stories@.len() > 0 ==> old(self).cur_index < old(self).stories@.len(),
        ensures
            final(self)@ == reclamp(old(self)@),
            final(self).wf(),
            final(self).stories@ == old(self).stories@,
            final(self).is_loading == old(self).is_loading,
    {
        let len = self.stories.len();
        if self.offset > self.cur_index {
            self.offset = self.cur_index;
        }
        if self.cur_index >= self.height - 1 && self.offset < self.cur_index - (self.height - 1) {
            self.offset = self.cur_index - (self.height - 1);
        }
        let max_off = if len > self.height {
            len - self.height
        } else {
            0
        };
        if self.offset > max_off {
            self.offset = max_off;
        }
    }

    /// Sets the number of rows that the display shows.
    pub fn resize(&mut self, height: usize)
        requires
            old(self).wf(),
            height >= 1,
        ensures
            final(self).wf(),
            final(self)@ == step(old(self)@, Nav::Resize(height as nat)),
            final(self).stories@ == old(self).stories@,
            final(self).is_loading == old(self).is_loading,
    {
        self.height = height;
        self.reclamp_viewport();
    }

    /// Moves the cursor up one story, stopping at the first.
    pub fn cursor_up(&mut self)
        requires
            old(self).wf(),
        ensures
            final(self).wf(),
            final(self)@ == step(old(self)@, Nav::Up),
            final(self).stories@ == old(self).stories@,
            final(self).is_loading == old(self).is_loading,
    {
        if self.cur_index > 0 {
            self.cur_index -= 1;
        }
        self.reclamp_viewport();
    }

    /// Moves the cursor down one story, stopping at the last.
    pub fn cursor_down(&mut self)
        requires
            old(self).wf(),
        ensures
            final(self).wf(),
            final(self)@ == step(old(self)@, Nav::Down),
            final(self).stories@ == old(self).stories@,
            final(self).is_loading == old(self).is_loading,
    {
        let len = self.stories.len();
        if len > 0 && self.cur_index < len - 1 {
            self.cur_index += 1;
        }
        self.reclamp_viewport();
    }

    /// Moves the cursor up by `JUMP_ROWS` stories, stopping at the first.
    pub fn cursor_jump_up(&mut self)
        requires
            old(self).wf(),
        ensures
            final(self).wf(),
            final(self)@ == step(old(self)@, Nav::JumpUp),
            final(self).stories@ == old(self).stories@,
            final(self).is_loading == old(self).is_loading,
    {
        match self.cur_index.checked_sub(JUMP_ROWS) {
            Some(c) => self.cur_index = c,
            None => self.cur_index = 0,
        }
        self.reclamp_viewport();
    }

    /// Moves the cursor down by `JUMP_ROWS` stories, stopping at the last.
    pub fn cursor_jump_down(&mut self)
        requires
            old(self).wf(),
        ensures
            final(self).wf(),
            final(self)@ == step(old(self)@, Nav::JumpDown),
            final(self).stories@ == old(self).stories@,
            final(self).is_loading == old(self).is_loading,
    {
        let len = self.stories.len();
        if self.cur_index < len && len - self.cur_index > JUMP_ROWS {
            self.cur_index += JUMP_ROWS;
        } else {
            self.cur_index = if !self.stories.is_empty() {
                len - 1
            } else {
                0
            };
        }
        self.reclamp_viewport();
    }

    /// Moves the cursor to the first story.
    pub fn cursor_jump_top(&mut self)
        requires
            old(self).wf(),
        ensures
            final(self).wf(),
            final(self)@ == step(old(self)@, Nav::Top),
            final(self).stories@ == old(self).stories@,
            final(self).is_loading == old(self).is_loading,
    {
        self.cur_index = 0;
        self.reclamp_viewport();
    }

    /// Moves the cursor to the last story.
    pub fn cursor_jump_bottom(&mut self)
        requires
            old(self).wf(),
        ensures
            final(self).wf(),
            final(self)@ == step(old(self)@, Nav::Bottom),
            final(self).stories@ == old(self).stories@,
            final(self).is_loading == old(self).is_loading,
    {
        self.cur_index = if !self.stories.is_empty() {
            self.stories.len() - 1
        } else {
            0
        };
        self.reclamp_viewport();
    }

    /// The selected story, if the list has any.
    pub fn selected(&self) -> (r: Option<&Story>)
        requires
            self.wf(),
        ensures
            self.stories@.len() == 0 ==> r is None,
            self.stories@.len() > 0 ==> r == Some(&self.stories@[self.cur_index as int]),
    {
        if self.stories.is_empty() {
            None
        } else {
            Some(&self.stories[self.cur_index])
        }
    }
}

} // verus!
