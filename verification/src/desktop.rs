//! The window manager's decisions: which window a press lands on, which
//! window has the focus, which one is being dragged, and closing. Where
//! windows are on screen and what they contain is up to the caller; this
//! module keeps the windows in stacking order (last on top).

use vstd::prelude::*;

verus! {

/// The part of a window that a press landed on.
#[derive(Clone, Copy, PartialEq, Eq, Debug, Structural)]
pub enum Region {
    CloseButton,
    TitleBar,
    Content,
    /// Inside the window but on none of the parts above.
    Frame,
}

/// What a press did.
#[derive(Clone, Copy, PartialEq, Eq, Debug, Structural)]
pub enum Press {
    /// The window at this index was focused; nothing else happened.
    Focused(usize),
    /// The window at this index was closed.
    Closed(usize),
    /// Dragging of the window at this index began.
    DragStarted(usize),
    /// The press belongs to the app in the window at this index.
    ForApp(usize),
}

/// The windows in stacking order, the focused window and the window being
/// dragged, as plain values.
pub struct StackModel<W> {
    pub windows: Seq<W>,
    pub focused: Option<usize>,
    pub dragging: Option<usize>,
}

/// The windows of a desktop, bottom first, with focus and drag state.
pub struct WindowStack<W> {
    windows: Vec<W>,
    focused: Option<usize>,
    dragging: Option<usize>,
}

impl<W> View for WindowStack<W> {
    type V = StackModel<W>;

    closed spec fn view(&self) -> StackModel<W> {
        StackModel { windows: self.windows@, focused: self.focused, dragging: self.dragging }
    }
}

/// The topmost of the windows whose entry in `hits` is true.
pub open spec fn is_topmost_hit(hits: Seq<bool>, index: int) -> bool {
    &&& 0 <= index < hits.len()
    &&& hits[index]
    &&& forall|j: int| index < j < hits.len() ==> !#[trigger] hits[j]
}

/// The focus after the window at `index` is closed: the window now on
/// top, if any remains.
pub open spec fn focus_after_close(remaining: nat) -> Option<usize> {
    if remaining == 0 {
        None
    } else {
        Some((remaining - 1) as usize)
    }
}

/// The stack after a press on `region` of the window at `index`.
pub open spec fn after_press<W>(s: StackModel<W>, index: int, region: Region) -> StackModel<W> {
    match region {
        Region::CloseButton => {
            let windows = s.windows.remove(index);
            StackModel { windows, focused: focus_after_close(windows.len()), ..s }
        },
        Region::TitleBar => StackModel {
            focused: Some(index as usize),
            dragging: Some(index as usize),
            ..s
        },
        _ => StackModel { focused: Some(index as usize), ..s },
    }
}

/// What a press on `region` of the window at `index` does.
pub open spec fn press_result(index: int, region: Region) -> Press {
    match region {
        Region::CloseButton => Press::Closed(index as usize),
        Region::TitleBar => Press::DragStarted(index as usize),
        Region::Content => Press::ForApp(index as usize),
        Region::Frame => Press::Focused(index as usize),
    }
}

/// The index of the topmost window that a point lies in, given for each
/// window (bottom first) whether the point lies in it.
pub fn topmost_hit(hits: &Vec<bool>) -> (r: Option<usize>)
    ensures
        r is None <==> forall|j: int| 0 <= j < hits@.len() ==> !#[trigger] hits@[j],
        r matches Some(i) ==> is_topmost_hit(hits@, i as int),
        r matches Some(i) ==> i < hits@.len() && hits@[i as int] && forall|j: int|
            i < j < hits@.len() ==> !#[trigger] hits@[j],
{
    // Search topmost-first so overlapping windows behave sensibly.
    let mut k: usize = hits.len();
    while k > 0
        invariant
            k <= hits@.len(),
            forall|j: int| k <= j < hits@.len() ==> !#[trigger] hits@[j],
        decreases k,
    {
        k = k - 1;
        if hits[k] {
            return Some(k);
        }
    }
    None
}

impl<W> WindowStack<W> {
    pub fn new() -> (s: Self)
        ensures
            s@.windows == Seq::<W>::empty(),
            s@.focused is None,
            s@.dragging is None,
    {
        WindowStack { windows: Vec::new(), focused: None, dragging: None }
    }

    /// Opens `window` on top of the others and focuses it.
    pub fn open(&mut self, window: W)
        ensures
            final(self)@.windows == old(self)@.windows.push(window),
            final(self)@.focused == Some(old(self)@.windows.len() as usize),
            final(self)@.dragging == old(self)@.dragging,
    {
        self.windows.push(window);
        self.focused = Some(self.windows.len() - 1);
    }

    pub fn len(&self) -> (n: usize)
        ensures
            n == self@.windows.len(),
    {
        self.windows.len()
    }

    pub fn get(&self, index: usize) -> (w: &W)
        requires
            index < self@.windows.len(),
        ensures
            *w == self@.windows[index as int],
    {
        &self.windows[index]
    }

    pub fn get_mut(&mut self, index: usize) -> (w: &mut W)
        requires
            index < old(self)@.windows.len(),
        ensures
            *w == old(self)@.windows[index as int],
            final(self)@ == (StackModel {
                windows: old(self)@.windows.update(index as int, *final(w)),
                ..old(self)@
            }),
    {
        &mut self.windows[index]
    }

    pub fn focused(&self) -> (f: Option<usize>)
        ensures
            f == self@.focused,
    {
        self.focused
    }

    /// The window being dragged, if a drag is under way.
    pub fn dragging(&self) -> (d: Option<usize>)
        ensures
            d == self@.dragging,
    {
        self.dragging
    }

    /// A press on `region` of the window at `index`, the topmost window
    /// under the pointer: the window gets the focus; its close button
    /// closes it (and the window then on top gets the focus); its title
    /// bar starts dragging it; its content belongs to its app.
    pub fn press(&mut self, index: usize, region: Region) -> (p: Press)
        requires
            index < old(self)@.windows.len(),
        ensures
            final(self)@ == after_press(old(self)@, index as int, region),
            p == press_result(index as int, region),
    {
        self.focused = Some(index);
        match region {
            Region::CloseButton => {
                self.windows.remove(index);
                self.focused = self.windows.len().checked_sub(1);
                Press::Closed(index)
            },
            Region::TitleBar => {
                self.dragging = Some(index);
                Press::DragStarted(index)
            },
            Region::Content => Press::ForApp(index),
            Region::Frame => Press::Focused(index),
        }
    }

    /// The pointer was released: any drag ends.
    pub fn release(&mut self)
        ensures
            final(self)@ == (StackModel { dragging: None, ..old(self)@ }),
    {
        self.dragging = None;
    }
}


/// The focused window, if any, is one of the windows.
pub open spec fn focus_in_range<W>(s: StackModel<W>) -> bool {
    s.focused matches Some(i) ==> i < s.windows.len()
}

/// Pressing a window keeps the focus on an existing window: the pressed
/// one, or after a close the window left on top (no focus when none is
/// left).
pub proof fn law_press_keeps_focus_on_a_window<W>(s: StackModel<W>, index: int, region: Region)
    requires
        0 <= index < s.windows.len(),
    ensures
        focus_in_range(after_press(s, index, region)),
        region != Region::CloseButton ==> after_press(s, index, region).focused == Some(index as usize),
        region == Region::CloseButton ==> after_press(s, index, region).windows.len() + 1 == s.windows.len(),
{
}


/// What a press reports: a press on the content belongs to the app of
/// the pressed window, one on the title bar starts dragging it, one on
/// the close button closes it, and one elsewhere on the window only
/// focuses it.
pub proof fn law_press_reports_its_region(index: usize, region: Region)
    ensures
        region == Region::Content <==> press_result(index as int, region) == Press::ForApp(index),
        region == Region::TitleBar <==> press_result(index as int, region) == Press::DragStarted(index),
        region == Region::CloseButton <==> press_result(index as int, region) == Press::Closed(index),
        region == Region::Frame <==> press_result(index as int, region) == Press::Focused(index),
{
}

/// What a press does to the windows, the focus and the drag: only the
/// close button removes a window (exactly the pressed one) and moves the
/// focus to the window left on top; only the title bar starts a drag (of
/// the pressed window); any other press leaves the windows and the drag
/// as they were and focuses the pressed window.
pub proof fn law_press_effects<W>(s: StackModel<W>, index: int, region: Region)
    requires
        0 <= index < s.windows.len(),
    ensures
        region != Region::TitleBar ==> after_press(s, index, region).dragging == s.dragging,
        region == Region::TitleBar ==> after_press(s, index, region).dragging == Some(index as usize),
        region != Region::CloseButton ==> after_press(s, index, region).windows == s.windows,
        region == Region::CloseButton ==> after_press(s, index, region).windows.len() + 1 == s.windows.len()
            && (forall|k: int| 0 <= k < index ==> after_press(s, index, region).windows[k] == s.windows[k])
            && (forall|k: int| index < k < s.windows.len() ==> after_press(s, index, region).windows[k - 1] == s.windows[k])
            && after_press(s, index, region).focused == (if s.windows.len() == 1 {
                None
            } else {
                Some((s.windows.len() - 2) as usize)
            }),
        region != Region::CloseButton ==> after_press(s, index, region).focused == Some(index as usize),
{
}

} // verus!
