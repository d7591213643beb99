use playground::desktop::{topmost_hit, Press, Region, WindowStack};
use playground::glyph::glyph_pixels;

#[test]
fn topmost_hit_picks_the_highest_window_under_the_pointer() {
    assert_eq!(topmost_hit(&vec![true, false, true, false]), Some(2));
    assert_eq!(topmost_hit(&vec![true, false]), Some(0));
    assert_eq!(topmost_hit(&vec![false, false]), None);
    assert_eq!(topmost_hit(&vec![]), None);
}

#[test]
fn opening_a_window_focuses_it() {
    let mut stack: WindowStack<&str> = WindowStack::new();
    assert_eq!(stack.len(), 0);
    assert_eq!(stack.focused(), None);
    stack.open("comet");
    stack.open("notes");
    assert_eq!(stack.len(), 2);
    assert_eq!(stack.focused(), Some(1));
    assert_eq!(*stack.get(0), "comet");
}

#[test]
fn presses_focus_drag_forward_and_close() {
    let mut stack: WindowStack<&str> = WindowStack::new();
    stack.open("a");
    stack.open("b");
    stack.open("c");

    assert_eq!(stack.press(0, Region::Content), Press::ForApp(0));
    assert_eq!(stack.focused(), Some(0));
    assert_eq!(stack.dragging(), None);

    assert_eq!(stack.press(1, Region::Frame), Press::Focused(1));
    assert_eq!(stack.focused(), Some(1));

    assert_eq!(stack.press(1, Region::TitleBar), Press::DragStarted(1));
    assert_eq!(stack.dragging(), Some(1));
    stack.release();
    assert_eq!(stack.dragging(), None);

    assert_eq!(stack.press(0, Region::CloseButton), Press::Closed(0));
    assert_eq!(stack.len(), 2);
    assert_eq!(*stack.get(0), "b");
    assert_eq!(stack.focused(), Some(1), "the window left on top gets the focus");

    stack.press(1, Region::CloseButton);
    stack.press(0, Region::CloseButton);
    assert_eq!(stack.len(), 0);
    assert_eq!(stack.focused(), None);
}

#[test]
fn windows_can_be_changed_in_place() {
    let mut stack: WindowStack<u32> = WindowStack::new();
    stack.open(5);
    *stack.get_mut(0) += 1;
    assert_eq!(*stack.get(0), 6);
}

#[test]
fn glyph_pixels_are_read_from_the_high_bits_of_each_row() {
    let rows = vec![0b10001u8, 0b01010, 0b00000, 0b11111];
    assert_eq!(
        glyph_pixels(&rows, 5),
        vec![(0, 0), (0, 4), (1, 1), (1, 3), (3, 0), (3, 1), (3, 2), (3, 3), (3, 4)]
    );
    // Bits above the glyph's columns are not part of it.
    assert_eq!(glyph_pixels(&vec![0b1110_0000], 5), vec![]);
    assert_eq!(glyph_pixels(&vec![], 5), vec![]);
}
