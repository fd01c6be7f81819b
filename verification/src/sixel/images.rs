//! The decoded images of a terminal.
//!
//! Images live beside the grid of cells, not in it: the grid only reserves
//! blank space for them. [`TerminalImages`] owns them, with the rules that keep
//! their rows aligned with the text that scrolls and is erased around them.
use vstd::prelude::*;

use crate::chars::{decimal, push_decimal};
use crate::sixel::decoder::SixelImage;

verus! {

/// A picture with the cells that it covers. `image` is whatever the renderer
/// paints.
pub struct TerminalImage<T> {
    pub row: isize,
    pub col: usize,
    pub cols: usize,
    pub rows: usize,
    /// Whether the image belongs to the alternate screen. The two screens are
    /// separate: what scrolls or is erased on one leaves the other alone.
    pub alt_screen: bool,
    pub image: T,
}

/// The cap on retained images, bounding the memory they take.
pub const MAX_IMAGES: usize = 128;

impl<T> TerminalImage<T> {
    /// The row below the image.
    pub open spec fn bottom(self) -> int {
        self.row + self.rows
    }

    /// Whether the image has a row in `[top, bottom)`.
    pub open spec fn meets(self, top: int, bottom: int) -> bool {
        self.row < bottom && self.bottom() > top
    }

    pub open spec fn moved(self, delta: int) -> TerminalImage<T> {
        TerminalImage { row: (self.row + delta) as isize, ..self }
    }

    /// Its height fits the type of its rows.
    pub open spec fn wf(self) -> bool {
        self.rows <= isize::MAX
    }
}

/// What scrolling the rows `[top, bottom)` of a screen makes of an image: it
/// moves along where it has a row among them, and is gone where it has none
/// left.
pub open spec fn scrolled_image<T>(
    image: TerminalImage<T>,
    top: int,
    bottom: int,
    delta: int,
    alt_screen: bool,
) -> Option<TerminalImage<T>> {
    if image.alt_screen != alt_screen || !image.meets(top, bottom) {
        Some(image)
    } else if image.row + delta < bottom && image.bottom() + delta > top {
        Some(image.moved(delta))
    } else {
        None
    }
}

pub open spec fn scrolled_images<T>(
    images: Seq<TerminalImage<T>>,
    top: int,
    bottom: int,
    delta: int,
    alt_screen: bool,
) -> Seq<TerminalImage<T>>
    decreases images.len(),
{
    if images.len() == 0 {
        images
    } else {
        let rest = scrolled_images(images.skip(1), top, bottom, delta, alt_screen);
        match scrolled_image(images[0], top, bottom, delta, alt_screen) {
            Some(image) => seq![image] + rest,
            None => rest,
        }
    }
}

/// What erasing the rows `[top, bottom)` of a screen leaves of its images: those
/// that have no row among them.
pub open spec fn remaining_images<T>(
    images: Seq<TerminalImage<T>>,
    top: int,
    bottom: int,
    alt_screen: bool,
) -> Seq<TerminalImage<T>>
    decreases images.len(),
{
    if images.len() == 0 {
        images
    } else {
        let rest = remaining_images(images.skip(1), top, bottom, alt_screen);
        if images[0].alt_screen == alt_screen && images[0].meets(top, bottom) {
            rest
        } else {
            seq![images[0]] + rest
        }
    }
}

/// What a new size of a screen makes of an image, given how many rows the text
/// moved with it and how many rows there are now: it moves along, and is gone
/// where it has no row left on the screen.
pub open spec fn resized_image<T>(
    image: TerminalImage<T>,
    delta: int,
    rows: int,
    alt_screen: bool,
) -> Option<TerminalImage<T>> {
    if image.alt_screen != alt_screen {
        Some(image)
    } else if image.row + delta < rows && image.bottom() + delta > 0 {
        Some(image.moved(delta))
    } else {
        None
    }
}

pub open spec fn resized_images<T>(
    images: Seq<TerminalImage<T>>,
    delta: int,
    rows: int,
    alt_screen: bool,
) -> Seq<TerminalImage<T>>
    decreases images.len(),
{
    if images.len() == 0 {
        images
    } else {
        let rest = resized_images(images.skip(1), delta, rows, alt_screen);
        match resized_image(images[0], delta, rows, alt_screen) {
            Some(image) => seq![image] + rest,
            None => rest,
        }
    }
}

/// The last ones, as many as are retained.
pub open spec fn newest<T>(images: Seq<TerminalImage<T>>) -> Seq<TerminalImage<T>> {
    if images.len() <= MAX_IMAGES {
        images
    } else {
        images.skip(images.len() - MAX_IMAGES)
    }
}

pub open spec fn images_wf<T>(images: Seq<TerminalImage<T>>) -> bool {
    forall|i: int| 0 <= i < images.len() ==> (#[trigger] images[i]).wf()
}

/// Whether an image has a row in `[top, bottom)`.
fn image_meets<T>(image: &TerminalImage<T>, top: usize, bottom: usize) -> (r: bool)
    ensures
        r == image.meets(top as int, bottom as int),
{
    (image.row as i128) < bottom as i128 && image.row as i128 + image.rows as i128 > top as i128
}

/// Moves the images of a screen that have a row in `[region_top,
/// region_bottom)` by `delta` rows, and drops those that leave it.
pub fn scroll_images_in_region<T>(
    images: &mut Vec<TerminalImage<T>>,
    region_top: usize,
    region_bottom: usize,
    delta: i32,
    alt_screen: bool,
)
    requires
        region_bottom <= isize::MAX,
        images_wf(old(images)@),
    ensures
        final(images)@ == if delta == 0 || region_top >= region_bottom {
            old(images)@
        } else {
            scrolled_images(
                old(images)@,
                region_top as int,
                region_bottom as int,
                delta as int,
                alt_screen,
            )
        },
        images_wf(final(images)@),
        final(images)@.len() <= old(images)@.len(),
{
    if delta == 0 || region_top >= region_bottom {
        return;
    }
    let ghost top = region_top as int;
    let ghost bottom = region_bottom as int;
    let ghost all = scrolled_images(images@, top, bottom, delta as int, alt_screen);
    let mut i: usize = 0;
    assert(images@.take(0) + all =~= all);
    assert(images@.skip(0) =~= images@);
    while i < images.len()
        invariant
            i <= images@.len() <= old(images)@.len(),
            top == region_top,
            bottom == region_bottom <= isize::MAX,
            0 <= top < bottom,
            images_wf(images@),
            images@.take(i as int) + scrolled_images(
                images@.skip(i as int),
                top,
                bottom,
                delta as int,
                alt_screen,
            ) == all,
        decreases images@.len() - i,
    {
        let ghost done = images@.take(i as int);
        let ghost rest = images@.skip(i as int);
        let ghost tail = scrolled_images(rest.skip(1), top, bottom, delta as int, alt_screen);
        let ghost current = images@[i as int];
        assert(rest[0] == current);
        assert(rest.skip(1) =~= images@.skip(i + 1));
        if images[i].alt_screen != alt_screen || !image_meets(&images[i], region_top, region_bottom)
        {
            assert(images@.take(i + 1) + tail =~= done + (seq![current] + tail));
            i += 1;
        } else {
            let row: i128 = images[i].row as i128 + delta as i128;
            if row < region_bottom as i128 && row + images[i].rows as i128 > region_top as i128 {
                let ghost before = images@;
                assert(before[i as int].wf());
                let entry = &mut images[i];
                entry.row = row as isize;
                assert(images@ =~= before.update(i as int, current.moved(delta as int)));
                assert(images@.skip(i + 1) =~= before.skip(i + 1));
                assert(images@.take(i + 1) + tail =~= done + (seq![current.moved(delta as int)]
                    + tail));
                i += 1;
            } else {
                let ghost before = images@;
                let _removed = images.remove(i);
                assert(images@.take(i as int) =~= done);
                assert(images@.skip(i as int) =~= before.skip(i + 1));
            }
        }
    }
    assert(images@.skip(i as int) =~= Seq::<TerminalImage<T>>::empty());
    assert(images@.take(i as int) =~= images@);
    assert(images@ + Seq::<TerminalImage<T>>::empty() =~= images@);
}

/// Drops the images of a screen that have a row in `[region_top,
/// region_bottom)`.
pub fn erase_images_in_region<T>(
    images: &mut Vec<TerminalImage<T>>,
    region_top: usize,
    region_bottom: usize,
    alt_screen: bool,
)
    requires
        images_wf(old(images)@),
    ensures
        final(images)@ == if region_top >= region_bottom {
            old(images)@
        } else {
            remaining_images(
                old(images)@,
                region_top as int,
                region_bottom as int,
                alt_screen,
            )
        },
        images_wf(final(images)@),
        final(images)@.len() <= old(images)@.len(),
{
    if region_top >= region_bottom {
        return;
    }
    let ghost top = region_top as int;
    let ghost bottom = region_bottom as int;
    let ghost all = remaining_images(images@, top, bottom, alt_screen);
    let mut i: usize = 0;
    assert(images@.take(0) + all =~= all);
    assert(images@.skip(0) =~= images@);
    while i < images.len()
        invariant
            i <= images@.len() <= old(images)@.len(),
            top == region_top,
            bottom == region_bottom,
            images_wf(images@),
            images@.take(i as int) + remaining_images(
                images@.skip(i as int),
                top,
                bottom,
                alt_screen,
            ) == all,
        decreases images@.len() - i,
    {
        let ghost done = images@.take(i as int);
        let ghost rest = images@.skip(i as int);
        let ghost tail = remaining_images(rest.skip(1), top, bottom, alt_screen);
        let ghost current = images@[i as int];
        assert(rest[0] == current);
        assert(rest.skip(1) =~= images@.skip(i + 1));
        if images[i].alt_screen == alt_screen && image_meets(&images[i], region_top, region_bottom)
        {
            let ghost before = images@;
            let _removed = images.remove(i);
            assert(images@.take(i as int) =~= done);
            assert(images@.skip(i as int) =~= before.skip(i + 1));
        } else {
            assert(images@.take(i + 1) + tail =~= done + (seq![current] + tail));
            i += 1;
        }
    }
    assert(images@.skip(i as int) =~= Seq::<TerminalImage<T>>::empty());
    assert(images@.take(i as int) =~= images@);
    assert(images@ + Seq::<TerminalImage<T>>::empty() =~= images@);
}

/// Moves the images of a screen whose size changed by `delta` rows, and drops
/// those that leave it. `rows` is how many rows the screen has now.
pub fn resize_images<T>(
    images: &mut Vec<TerminalImage<T>>,
    delta: i64,
    rows: usize,
    alt_screen: bool,
)
    requires
        rows <= isize::MAX,
        images_wf(old(images)@),
    ensures
        final(images)@ == resized_images(old(images)@, delta as int, rows as int, alt_screen),
        images_wf(final(images)@),
        final(images)@.len() <= old(images)@.len(),
{
    let ghost all = resized_images(images@, delta as int, rows as int, alt_screen);
    let mut i: usize = 0;
    assert(images@.take(0) + all =~= all);
    assert(images@.skip(0) =~= images@);
    while i < images.len()
        invariant
            i <= images@.len() <= old(images)@.len(),
            rows <= isize::MAX,
            images_wf(images@),
            images@.take(i as int) + resized_images(
                images@.skip(i as int),
                delta as int,
                rows as int,
                alt_screen,
            ) == all,
        decreases images@.len() - i,
    {
        let ghost done = images@.take(i as int);
        let ghost rest = images@.skip(i as int);
        let ghost tail = resized_images(rest.skip(1), delta as int, rows as int, alt_screen);
        let ghost current = images@[i as int];
        let ghost before = images@;
        assert(rest[0] == current);
        assert(rest.skip(1) =~= images@.skip(i + 1));
        assert(current.wf());
        let row: i128 = images[i].row as i128 + delta as i128;
        if images[i].alt_screen != alt_screen {
            assert(images@.take(i + 1) + tail =~= done + (seq![current] + tail));
            i += 1;
        } else if row < rows as i128 && row + images[i].rows as i128 > 0 {
            let entry = &mut images[i];
            entry.row = row as isize;
            assert(images@ =~= before.update(i as int, current.moved(delta as int)));
            assert(images@.skip(i + 1) =~= before.skip(i + 1));
            assert(images@.take(i + 1) + tail =~= done + (seq![current.moved(delta as int)]
                + tail));
            i += 1;
        } else {
            let _removed = images.remove(i);
            assert(images@.take(i as int) =~= done);
            assert(images@.skip(i as int) =~= before.skip(i + 1));
        }
    }
    assert(images@.skip(i as int) =~= Seq::<TerminalImage<T>>::empty());
    assert(images@.take(i as int) =~= images@);
    assert(images@ + Seq::<TerminalImage<T>>::empty() =~= images@);
}

/// How many rows a new size moves the text of a screen, given the line of the
/// cursor before and after it: the cursor stays with its text.
pub fn rows_moved_by_resize(line_before: i32, line_after: i32) -> (delta: i64)
    ensures
        delta == line_after - line_before,
{
    line_after as i64 - line_before as i64
}

/// The live images of a terminal.
pub struct TerminalImages<T> {
    images: Vec<TerminalImage<T>>,
}

impl<T> View for TerminalImages<T> {
    type V = Seq<TerminalImage<T>>;

    closed spec fn view(&self) -> Seq<TerminalImage<T>> {
        self.images@
    }
}

impl<T> TerminalImages<T> {
    pub open spec fn wf(&self) -> bool {
        self@.len() <= MAX_IMAGES && images_wf(self@)
    }

    pub fn new() -> (images: Self)
        ensures
            images@ == Seq::<TerminalImage<T>>::empty(),
            images.wf(),
    {
        TerminalImages { images: Vec::new() }
    }

    /// The images, from the oldest to the newest.
    pub fn as_slice(&self) -> (images: &[TerminalImage<T>])
        ensures
            images@ == self@,
    {
        self.images.as_slice()
    }

    /// Places a decoded picture at its anchor, and drops the oldest image past
    /// the cap. Stores nothing, and returns `false`, where the payload gave no
    /// picture.
    pub fn store(
        &mut self,
        image: &SixelImage,
        occupied_cols: usize,
        occupied_rows: usize,
        alt_screen: bool,
        picture: Option<T>,
    ) -> (stored: bool)
        requires
            old(self).wf(),
            image.row <= isize::MAX,
            occupied_rows <= isize::MAX,
        ensures
            final(self).wf(),
            stored == picture is Some,
            match picture {
                None => final(self)@ == old(self)@,
                Some(pixels) => final(self)@ == newest(
                    old(self)@.push(
                        TerminalImage {
                            row: image.row as isize,
                            col: image.col,
                            cols: occupied_cols,
                            rows: occupied_rows,
                            alt_screen,
                            image: pixels,
                        },
                    ),
                ),
            },
    {
        match picture {
            None => false,
            Some(pixels) => {
                self.images.push(
                    TerminalImage {
                        row: image.row as isize,
                        col: image.col,
                        cols: occupied_cols,
                        rows: occupied_rows,
                        alt_screen,
                        image: pixels,
                    },
                );
                if self.images.len() > MAX_IMAGES {
                    let ghost before = self.images@;
                    let _oldest = self.images.remove(0);
                    assert(self.images@ =~= before.skip(1));
                }
                true
            },
        }
    }

    /// Lets the images of a screen follow a scrolled region.
    pub fn scroll_region(
        &mut self,
        region_top: usize,
        region_bottom: usize,
        delta: i32,
        alt_screen: bool,
    )
        requires
            old(self).wf(),
            region_bottom <= isize::MAX,
        ensures
            final(self).wf(),
            final(self)@ == if delta == 0 || region_top >= region_bottom {
                old(self)@
            } else {
                scrolled_images(
                    old(self)@,
                    region_top as int,
                    region_bottom as int,
                    delta as int,
                    alt_screen,
                )
            },
    {
        scroll_images_in_region(
            &mut self.images,
            region_top,
            region_bottom,
            delta,
            alt_screen,
        );
    }

    /// Drops the images of a screen in an erased region.
    pub fn erase_region(&mut self, region_top: usize, region_bottom: usize, alt_screen: bool)
        requires
            old(self).wf(),
        ensures
            final(self).wf(),
            final(self)@ == if region_top >= region_bottom {
                old(self)@
            } else {
                remaining_images(
                    old(self)@,
                    region_top as int,
                    region_bottom as int,
                    alt_screen,
                )
            },
    {
        erase_images_in_region(&mut self.images, region_top, region_bottom, alt_screen);
    }
}

impl<T> TerminalImages<T> {
    /// Lets the images of a screen follow a new size, which moved the text by
    /// `delta` rows. `rows` is how many rows the screen has now.
    pub fn follow_resize(&mut self, delta: i64, rows: usize, alt_screen: bool)
        requires
            old(self).wf(),
            rows <= isize::MAX,
        ensures
            final(self).wf(),
            final(self)@ == resized_images(old(self)@, delta as int, rows as int, alt_screen),
    {
        resize_images(&mut self.images, delta, rows, alt_screen);
    }
}

/// Law: a new size that is taken back leaves the images where they were, as far
/// as none left the screen on the way.
pub proof fn law_a_resize_can_be_taken_back<T>(
    images: Seq<TerminalImage<T>>,
    delta: int,
    rows: int,
    new_rows: int,
    alt_screen: bool,
)
    requires
        forall|i: int|
            0 <= i < images.len() && (#[trigger] images[i]).alt_screen == alt_screen
                ==> images[i].meets(0, rows) && images[i].meets(-delta, new_rows - delta)
                && isize::MIN <= images[i].row + delta <= isize::MAX,
    ensures
        resized_images(
            resized_images(images, delta, new_rows, alt_screen),
            -delta,
            rows,
            alt_screen,
        ) == images,
    decreases images.len(),
{
    if images.len() > 0 {
        let rest = images.skip(1);
        assert forall|i: int|
            0 <= i < rest.len() && (#[trigger] rest[i]).alt_screen == alt_screen implies {
            &&& rest[i].meets(0, rows)
            &&& rest[i].meets(-delta, new_rows - delta)
            &&& isize::MIN <= rest[i].row + delta <= isize::MAX
        } by {
            assert(rest[i] == images[i + 1]);
        }
        law_a_resize_can_be_taken_back(rest, delta, rows, new_rows, alt_screen);
        let first = images[0];
        let there = resized_image(first, delta, new_rows, alt_screen);
        assert(there is Some);
        let moved = resized_images(images, delta, new_rows, alt_screen);
        assert(moved == seq![there->0] + resized_images(rest, delta, new_rows, alt_screen));
        assert(moved.skip(1) =~= resized_images(rest, delta, new_rows, alt_screen));
        assert(moved[0] == there->0);
        assert(resized_image(there->0, -delta, rows, alt_screen) == Some(first));
        assert(seq![first] + rest =~= images);
    }
}

/// Law: after a new size every image of the screen has a row on it, and the other
/// screen has the images that it had.
pub proof fn law_resized_images_are_on_the_screen<T>(
    images: Seq<TerminalImage<T>>,
    delta: int,
    rows: int,
    alt_screen: bool,
)
    requires
        rows <= isize::MAX,
        images_wf(images),
    ensures
        ({
            let after = resized_images(images, delta, rows, alt_screen);
            &&& forall|i: int|
                0 <= i < after.len() && (#[trigger] after[i]).alt_screen == alt_screen
                    ==> after[i].meets(0, rows)
            &&& of_screen(after, !alt_screen) == of_screen(images, !alt_screen)
        }),
    decreases images.len(),
{
    let after = resized_images(images, delta, rows, alt_screen);
    if images.len() > 0 {
        let rest = images.skip(1);
        let tail = resized_images(rest, delta, rows, alt_screen);
        assert forall|i: int| 0 <= i < rest.len() implies (#[trigger] rest[i]).wf() by {
            assert(rest[i] == images[i + 1]);
        }
        law_resized_images_are_on_the_screen(rest, delta, rows, alt_screen);
        assert(images[0].wf());
        if let Some(image) = resized_image(images[0], delta, rows, alt_screen) {
            assert(after == seq![image] + tail);
            assert(after.skip(1) =~= tail);
            assert forall|i: int|
                0 <= i < after.len() && (#[trigger] after[i]).alt_screen == alt_screen implies
                after[i].meets(0, rows) by {
                if i > 0 {
                    assert(after[i] == tail[i - 1]);
                }
            }
        }
    }
}

/// The images of one screen, in their order.
pub open spec fn of_screen<T>(images: Seq<TerminalImage<T>>, alt_screen: bool) -> Seq<
    TerminalImage<T>,
>
    decreases images.len(),
{
    if images.len() == 0 {
        images
    } else {
        let rest = of_screen(images.skip(1), alt_screen);
        if images[0].alt_screen == alt_screen {
            seq![images[0]] + rest
        } else {
            rest
        }
    }
}

/// An event of the emulator that moves or removes images.
#[derive(Clone, Copy, Debug, PartialEq, Eq, Structural)]
pub enum ImageEvent {
    Scroll { region_top: usize, region_bottom: usize, delta: i32 },
    Erase { region_top: usize, region_bottom: usize },
}

impl ImageEvent {
    /// Its region fits the type of the rows of images.
    pub open spec fn wf(self) -> bool {
        match self {
            ImageEvent::Scroll { region_bottom, .. } => region_bottom <= isize::MAX,
            ImageEvent::Erase { .. } => true,
        }
    }
}

/// What an event leaves of the images.
pub open spec fn after_event<T>(
    images: Seq<TerminalImage<T>>,
    event: ImageEvent,
    alt_screen: bool,
) -> Seq<TerminalImage<T>> {
    match event {
        ImageEvent::Scroll { region_top, region_bottom, delta } => if delta == 0 || region_top
            >= region_bottom {
            images
        } else {
            scrolled_images(
                images,
                region_top as int,
                region_bottom as int,
                delta as int,
                alt_screen,
            )
        },
        ImageEvent::Erase { region_top, region_bottom } => if region_top >= region_bottom {
            images
        } else {
            remaining_images(images, region_top as int, region_bottom as int, alt_screen)
        },
    }
}

/// What events leave of the images, one after the other.
pub open spec fn after_events<T>(
    images: Seq<TerminalImage<T>>,
    events: Seq<ImageEvent>,
    alt_screen: bool,
) -> Seq<TerminalImage<T>>
    decreases events.len(),
{
    if events.len() == 0 {
        images
    } else {
        after_event(after_events(images, events.drop_last(), alt_screen), events.last(), alt_screen)
    }
}

impl<T> TerminalImages<T> {
    /// Attends to events, in their order.
    pub fn apply_events(&mut self, events: &[ImageEvent], alt_screen: bool)
        requires
            old(self).wf(),
            forall|i: int| 0 <= i < events@.len() ==> (#[trigger] events@[i]).wf(),
        ensures
            final(self).wf(),
            final(self)@ == after_events(old(self)@, events@, alt_screen),
    {
        let mut i: usize = 0;
        assert(events@.take(0) =~= Seq::<ImageEvent>::empty());
        while i < events.len()
            invariant
                i <= events@.len(),
                self.wf(),
                forall|k: int| 0 <= k < events@.len() ==> (#[trigger] events@[k]).wf(),
                self@ == after_events(old(self)@, events@.take(i as int), alt_screen),
            decreases events@.len() - i,
        {
            assert(events@.take(i + 1).drop_last() =~= events@.take(i as int));
            assert(events@[i as int].wf());
            match events[i] {
                ImageEvent::Scroll { region_top, region_bottom, delta } => {
                    self.scroll_region(region_top, region_bottom, delta, alt_screen);
                },
                ImageEvent::Erase { region_top, region_bottom } => {
                    self.erase_region(region_top, region_bottom, alt_screen);
                },
            }
            i += 1;
        }
        assert(events@.take(events@.len() as int) =~= events@);
    }

    /// Places a picture after the events that came before it: what scrolled
    /// before a picture was there does not move it.
    pub fn store_after_events(
        &mut self,
        events: &[ImageEvent],
        image: &SixelImage,
        occupied_cols: usize,
        occupied_rows: usize,
        alt_screen: bool,
        picture: Option<T>,
    ) -> (stored: bool)
        requires
            old(self).wf(),
            forall|i: int| 0 <= i < events@.len() ==> (#[trigger] events@[i]).wf(),
            image.row <= isize::MAX,
            occupied_rows <= isize::MAX,
        ensures
            final(self).wf(),
            stored == picture is Some,
            match picture {
                None => final(self)@ == after_events(old(self)@, events@, alt_screen),
                Some(pixels) => final(self)@ == newest(
                    after_events(old(self)@, events@, alt_screen).push(
                        TerminalImage {
                            row: image.row as isize,
                            col: image.col,
                            cols: occupied_cols,
                            rows: occupied_rows,
                            alt_screen,
                            image: pixels,
                        },
                    ),
                ),
            },
    {
        self.apply_events(events, alt_screen);
        self.store(image, occupied_cols, occupied_rows, alt_screen, picture)
    }
}

// ---------------------------------------------------------------------------
// Pixels for the renderer
// ---------------------------------------------------------------------------

/// A picture as the renderer takes it: BGRA pixels in row-major order.
pub struct FramePixels {
    pub width: u32,
    pub height: u32,
    pub bgra: Vec<u8>,
}

/// Whether an image has an area, and exactly the bytes for it.
pub open spec fn is_complete(image: SixelImage) -> bool {
    &&& 0 < image.width <= u32::MAX
    &&& 0 < image.height <= u32::MAX
    &&& image.rgba@.len() == image.width * image.height * 4
}

/// The bytes with the first and the third of every four exchanged.
pub open spec fn swapped_channels(bytes: Seq<u8>) -> Seq<u8> {
    Seq::new(
        bytes.len(),
        |i: int|
            if i % 4 == 0 {
                bytes[i + 2]
            } else if i % 4 == 2 {
                bytes[i - 2]
            } else {
                bytes[i]
            },
    )
}

/// `image::RgbaImage::from_raw`, and `into_raw` on what it returns. The first
/// takes a buffer if and only if it holds at least the bytes of all pixels; the
/// second gives the buffer back as it is.
#[verifier::external_body]
fn image_buffer_bytes(width: u32, height: u32, pixels: Vec<u8>) -> (r: Option<Vec<u8>>)
    ensures
        match r {
            Some(bytes) => width * height * 4 <= pixels@.len() && bytes@ == pixels@,
            None => width * height * 4 > pixels@.len(),
        },
{
    image::RgbaImage::from_raw(width, height, pixels).map(|buffer| buffer.into_raw())
}

/// The pixels of a decoded image in the renderer's order; none where the image
/// is not complete.
pub fn render_image_from_sixel(sixel: &SixelImage) -> (r: Option<FramePixels>)
    ensures
        match r {
            None => !is_complete(*sixel),
            Some(frame) => {
                &&& is_complete(*sixel)
                &&& frame.width == sixel.width
                &&& frame.height == sixel.height
                &&& frame.bgra@ == swapped_channels(sixel.rgba@)
            },
        },
{
    if sixel.width == 0 || sixel.height == 0 || sixel.width as u64 > u32::MAX as u64
        || sixel.height as u64 > u32::MAX as u64 {
        return None;
    }
    let width: u128 = sixel.width as u128;
    let height: u128 = sixel.height as u128;
    assert(0 < width * height <= 0xffff_ffff * 0xffff_ffff) by (nonlinear_arith)
        requires
            0 < width <= 0xffff_ffff,
            0 < height <= 0xffff_ffff,
    ;
    let len: usize = sixel.rgba.len();
    if len as u128 != width * height * 4 {
        return None;
    }
    let mut bgra: Vec<u8> = Vec::new();
    let mut i: usize = 0;
    while i < len
        invariant
            i <= len,
            len == sixel.rgba@.len(),
            len % 4 == 0,
            i % 4 == 0,
            bgra@.len() == i,
            forall|k: int| 0 <= k < i ==> bgra@[k] == swapped_channels(sixel.rgba@)[k],
        decreases len - i,
    {
        bgra.push(sixel.rgba[i + 2]);
        bgra.push(sixel.rgba[i + 1]);
        bgra.push(sixel.rgba[i]);
        bgra.push(sixel.rgba[i + 3]);
        i += 4;
    }
    assert(bgra@ =~= swapped_channels(sixel.rgba@));
    match image_buffer_bytes(sixel.width as u32, sixel.height as u32, bgra) {
        Some(bytes) => Some(
            FramePixels { width: sixel.width as u32, height: sixel.height as u32, bgra: bytes },
        ),
        None => None,
    }
}

// ---------------------------------------------------------------------------
// Space in the grid
// ---------------------------------------------------------------------------

/// So many line breaks.
pub open spec fn line_breaks(count: nat) -> Seq<u8>
    decreases count,
{
    if count == 0 {
        Seq::empty()
    } else {
        line_breaks((count - 1) as nat) + seq![0x0du8, 0x0au8]
    }
}

/// What reserves the cells of an image: a step to the right over its columns,
/// then a line break for each of its rows, at least one.
pub open spec fn reservation(occupied_cols: nat, occupied_rows: nat) -> Seq<u8> {
    let step = if occupied_cols > 0 {
        seq![0x1bu8, 0x5bu8] + decimal(occupied_cols) + seq![0x43u8]
    } else {
        Seq::empty()
    };
    step + line_breaks(
        if occupied_rows > 0 {
            occupied_rows
        } else {
            1
        },
    )
}

/// The bytes that reserve the cells of an image. Line breaks are used, and no
/// movement of the cursor, because these scroll at the bottom margin: an image
/// near the bottom then pushes the text up to make room.
pub fn reserve_sixel_layout(occupied_cols: usize, occupied_rows: usize) -> (bytes: Vec<u8>)
    ensures
        bytes@ == reservation(occupied_cols as nat, occupied_rows as nat),
{
    let mut bytes: Vec<u8> = Vec::new();
    if occupied_cols > 0 {
        bytes.push(0x1b);
        bytes.push(0x5b);
        push_decimal(&mut bytes, occupied_cols as u64);
        bytes.push(0x43);
        assert(bytes@ =~= seq![0x1bu8, 0x5bu8] + decimal(occupied_cols as nat) + seq![0x43u8]);
    }
    let ghost step = bytes@;
    let count: usize = if occupied_rows > 0 {
        occupied_rows
    } else {
        1
    };
    let mut i: usize = 0;
    assert(step + line_breaks(0) =~= step);
    while i < count
        invariant
            i <= count,
            bytes@ == step + line_breaks(i as nat),
        decreases count - i,
    {
        let ghost before = bytes@;
        bytes.push(0x0d);
        bytes.push(0x0a);
        assert(bytes@ =~= before + seq![0x0du8, 0x0au8]);
        assert(before + seq![0x0du8, 0x0au8] =~= step + (line_breaks(i as nat) + seq![
            0x0du8,
            0x0au8,
        ]));
        i += 1;
    }
    if occupied_cols == 0 {
        assert(step =~= Seq::<u8>::empty());
    }
    bytes
}

/// How many rows the grid scrolled to make room for an image anchored at a row,
/// given the row of the cursor after the reservation.
pub open spec fn rows_scrolled(anchor_row: int, occupied_rows: int, cursor_row: int) -> int {
    let end = if anchor_row + occupied_rows < usize::MAX {
        anchor_row + occupied_rows
    } else {
        usize::MAX as int
    };
    if end < cursor_row {
        0
    } else {
        end - cursor_row
    }
}

pub fn rows_scrolled_by_reservation(
    anchor_row: usize,
    occupied_rows: usize,
    cursor_row: usize,
) -> (rows: usize)
    ensures
        rows == rows_scrolled(anchor_row as int, occupied_rows as int, cursor_row as int),
{
    let end: usize = if anchor_row < usize::MAX - occupied_rows {
        anchor_row + occupied_rows
    } else {
        usize::MAX
    };
    if end < cursor_row {
        0
    } else {
        end - cursor_row
    }
}

// ---------------------------------------------------------------------------
// Laws
// ---------------------------------------------------------------------------

/// The images of one screen.
pub open spec fn on_screen<T>(images: Seq<TerminalImage<T>>, alt_screen: bool) -> Seq<
    TerminalImage<T>,
>
    decreases images.len(),
{
    if images.len() == 0 {
        images
    } else if images[0].alt_screen == alt_screen {
        seq![images[0]] + on_screen(images.skip(1), alt_screen)
    } else {
        on_screen(images.skip(1), alt_screen)
    }
}

/// Law: scrolling and erasing on one screen leave the images of the other
/// alone.
pub proof fn law_the_other_screen_is_left_alone<T>(
    images: Seq<TerminalImage<T>>,
    top: int,
    bottom: int,
    delta: int,
    alt_screen: bool,
)
    ensures
        on_screen(scrolled_images(images, top, bottom, delta, alt_screen), !alt_screen)
            == on_screen(images, !alt_screen),
        on_screen(remaining_images(images, top, bottom, alt_screen), !alt_screen) == on_screen(
            images,
            !alt_screen,
        ),
    decreases images.len(),
{
    if images.len() > 0 {
        let rest = images.skip(1);
        law_the_other_screen_is_left_alone(rest, top, bottom, delta, alt_screen);
        let scrolled_rest = scrolled_images(rest, top, bottom, delta, alt_screen);
        let remaining_rest = remaining_images(rest, top, bottom, alt_screen);
        match scrolled_image(images[0], top, bottom, delta, alt_screen) {
            Some(image) => {
                assert((seq![image] + scrolled_rest).skip(1) =~= scrolled_rest);
            },
            None => {},
        }
        assert((seq![images[0]] + remaining_rest).skip(1) =~= remaining_rest);
    }
}

/// Law: after an erasure no image of the screen has a row in the erased region;
/// erasing it again changes nothing.
pub proof fn law_an_erased_region_is_empty<T>(
    images: Seq<TerminalImage<T>>,
    top: int,
    bottom: int,
    alt_screen: bool,
)
    ensures
        forall|i: int|
            0 <= i < remaining_images(images, top, bottom, alt_screen).len() ==> !(
            #[trigger] remaining_images(images, top, bottom, alt_screen)[i].alt_screen == alt_screen
                && remaining_images(images, top, bottom, alt_screen)[i].meets(top, bottom)),
        remaining_images(
            remaining_images(images, top, bottom, alt_screen),
            top,
            bottom,
            alt_screen,
        ) == remaining_images(images, top, bottom, alt_screen),
    decreases images.len(),
{
    if images.len() > 0 {
        let rest = remaining_images(images.skip(1), top, bottom, alt_screen);
        law_an_erased_region_is_empty(images.skip(1), top, bottom, alt_screen);
        let all = remaining_images(images, top, bottom, alt_screen);
        if !(images[0].alt_screen == alt_screen && images[0].meets(top, bottom)) {
            assert(all.skip(1) =~= rest);
            assert forall|i: int| 0 <= i < all.len() implies !(#[trigger] all[i].alt_screen
                == alt_screen && all[i].meets(top, bottom)) by {
                if i > 0 {
                    assert(all[i] == rest[i - 1]);
                }
            }
        }
    }
}

/// Law: an image that stays within a region comes back to its row when the
/// region scrolls back.
pub proof fn law_scrolling_back_restores_an_image<T>(
    image: TerminalImage<T>,
    top: int,
    bottom: int,
    delta: int,
    alt_screen: bool,
)
    requires
        image.wf(),
        0 <= top < bottom <= isize::MAX,
        image.alt_screen == alt_screen,
        image.meets(top, bottom),
        scrolled_image(image, top, bottom, delta, alt_screen) is Some,
    ensures
        scrolled_image(
            scrolled_image(image, top, bottom, delta, alt_screen)->0,
            top,
            bottom,
            -delta,
            alt_screen,
        ) == Some(image),
{
}

/// Where so many line breaks lead from a row of a grid: each leads one row
/// down, or at the last row lets the grid scroll.
pub open spec fn row_after_breaks(row: int, breaks: int, grid_rows: int) -> int {
    if row + breaks < grid_rows {
        row + breaks
    } else {
        grid_rows - 1
    }
}

/// Law: the text that follows an image starts in the row below it. After the
/// line breaks of the reservation, and with the image scrolled along with the
/// grid, the cursor stands in the row where the image ends.
pub proof fn law_text_follows_below_the_image<T>(image: TerminalImage<T>, grid_rows: int)
    requires
        image.wf(),
        0 <= image.row < grid_rows <= u16::MAX,
        1 <= image.rows,
    ensures
        ({
            let cursor_row = row_after_breaks(image.row as int, image.rows as int, grid_rows);
            let scrolled = rows_scrolled(image.row as int, image.rows as int, cursor_row);
            &&& image.moved(-scrolled).bottom() == cursor_row
            &&& scrolled == 0 <==> image.bottom() < grid_rows
        }),
{
}

/// Law: an image in a region that scrolls moves by as many rows as the region
/// does, and nothing else of it changes; one that has no row there, or is on the
/// other screen, stays; and one that leaves the region is gone.
pub proof fn law_scrolling_moves_images<T>(
    image: TerminalImage<T>,
    top: int,
    bottom: int,
    delta: int,
    alt_screen: bool,
)
    requires
        image.wf(),
        0 <= top < bottom <= isize::MAX,
    ensures
        ({
            let after = scrolled_image(image, top, bottom, delta, alt_screen);
            let here = image.alt_screen == alt_screen && image.row < bottom && image.row
                + image.rows > top;
            &&& !here ==> after == Some(image)
            &&& here && (image.row + delta >= bottom || image.row + image.rows + delta <= top)
                ==> after is None
            &&& here && image.row + delta < bottom && image.row + image.rows + delta > top ==> {
                &&& after is Some
                &&& (after->0).row == image.row + delta
                &&& (after->0).col == image.col && (after->0).cols == image.cols && (
                after->0).rows == image.rows && (after->0).alt_screen == image.alt_screen && (
                after->0).image == image.image
            }
        }),
{
}

/// Law: images are taken one by one, in their order: what comes of two runs of
/// images, one behind the other, is what comes of each.
pub proof fn law_images_are_taken_one_by_one<T>(
    a: Seq<TerminalImage<T>>,
    b: Seq<TerminalImage<T>>,
    top: int,
    bottom: int,
    delta: int,
    alt_screen: bool,
)
    ensures
        scrolled_images(a + b, top, bottom, delta, alt_screen) == scrolled_images(
            a,
            top,
            bottom,
            delta,
            alt_screen,
        ) + scrolled_images(b, top, bottom, delta, alt_screen),
        remaining_images(a + b, top, bottom, alt_screen) == remaining_images(
            a,
            top,
            bottom,
            alt_screen,
        ) + remaining_images(b, top, bottom, alt_screen),
        a.len() == 1 ==> scrolled_images(a, top, bottom, delta, alt_screen) == match scrolled_image(
            a[0],
            top,
            bottom,
            delta,
            alt_screen,
        ) {
            Some(image) => seq![image],
            None => Seq::empty(),
        },
        a.len() == 1 ==> remaining_images(a, top, bottom, alt_screen) == if a[0].alt_screen
            == alt_screen && a[0].row < bottom && a[0].row + a[0].rows > top {
            Seq::empty()
        } else {
            a
        },
    decreases a.len(),
{
    if a.len() == 0 {
        assert(a + b =~= b);
        assert(scrolled_images(a, top, bottom, delta, alt_screen) + scrolled_images(
            b,
            top,
            bottom,
            delta,
            alt_screen,
        ) =~= scrolled_images(b, top, bottom, delta, alt_screen));
        assert(remaining_images(a, top, bottom, alt_screen) + remaining_images(
            b,
            top,
            bottom,
            alt_screen,
        ) =~= remaining_images(b, top, bottom, alt_screen));
    } else {
        let rest = a.skip(1);
        law_images_are_taken_one_by_one(rest, b, top, bottom, delta, alt_screen);
        assert((a + b).skip(1) =~= rest + b);
        assert((a + b)[0] == a[0]);
        assert(scrolled_images(a + b, top, bottom, delta, alt_screen) =~= scrolled_images(
            a,
            top,
            bottom,
            delta,
            alt_screen,
        ) + scrolled_images(b, top, bottom, delta, alt_screen));
        assert(remaining_images(a + b, top, bottom, alt_screen) =~= remaining_images(
            a,
            top,
            bottom,
            alt_screen,
        ) + remaining_images(b, top, bottom, alt_screen));
        if a.len() == 1 {
            let none = Seq::<TerminalImage<T>>::empty();
            assert(rest =~= none);
            assert(scrolled_images(rest, top, bottom, delta, alt_screen) =~= none);
            assert(remaining_images(rest, top, bottom, alt_screen) =~= none);
            if let Some(image) = scrolled_image(a[0], top, bottom, delta, alt_screen) {
                assert(seq![image] + none =~= seq![image]);
            }
            assert(seq![a[0]] + none =~= a);
        }
    }
}

/// Law: of the images the last 128 are kept, and all of them where there are no
/// more.
pub proof fn law_the_newest_images_are_kept<T>(images: Seq<TerminalImage<T>>, i: int)
    requires
        0 <= i < newest(images).len(),
    ensures
        newest(images).len() == if images.len() <= 128 {
            images.len()
        } else {
            128
        },
        newest(images)[i] == images[images.len() - newest(images).len() + i],
{
}

/// Law: the renderer gets blue, green, red and opacity of each pixel, in this
/// order, and doing it twice gives the picture back.
pub proof fn law_channels_are_exchanged(bytes: Seq<u8>, pixel: int)
    requires
        0 <= pixel,
        4 * pixel + 3 < bytes.len(),
        bytes.len() % 4 == 0,
    ensures
        swapped_channels(bytes).len() == bytes.len(),
        swapped_channels(bytes)[4 * pixel] == bytes[4 * pixel + 2],
        swapped_channels(bytes)[4 * pixel + 1] == bytes[4 * pixel + 1],
        swapped_channels(bytes)[4 * pixel + 2] == bytes[4 * pixel],
        swapped_channels(bytes)[4 * pixel + 3] == bytes[4 * pixel + 3],
        swapped_channels(swapped_channels(bytes)) == bytes,
{
    assert(swapped_channels(swapped_channels(bytes)) =~= bytes);
}

proof fn lemma_line_breaks(count: nat, i: int)
    requires
        0 <= i < count,
    ensures
        line_breaks(count).len() == 2 * count,
        line_breaks(count)[2 * i] == 0x0d,
        line_breaks(count)[2 * i + 1] == 0x0a,
    decreases count,
{
    if count > 1 {
        lemma_line_breaks((count - 1) as nat, if i < count - 1 {
            i
        } else {
            0
        });
    } else {
        assert(line_breaks(0) =~= Seq::<u8>::empty());
    }
}

/// Law: the cells of an image are reserved by a step to the right over all its
/// columns, and then one line break for each of its rows.
pub proof fn law_cells_are_reserved(cols: nat, rows: nat, i: int)
    requires
        0 < cols,
        0 <= i < rows,
    ensures
        ({
            let step = seq![0x1bu8, 0x5b] + decimal(cols) + seq![0x43u8];
            let all = reservation(cols, rows);
            &&& all.len() == step.len() + 2 * rows
            &&& all.take(step.len() as int) == step
            &&& all[step.len() + 2 * i] == 0x0d
            &&& all[step.len() + 2 * i + 1] == 0x0a
        }),
{
    lemma_line_breaks(rows, i);
    let step = seq![0x1bu8, 0x5b] + decimal(cols) + seq![0x43u8];
    assert(reservation(cols, rows).take(step.len() as int) =~= step);
}

/// Law: an event of the screen scrolls or erases the images of its region; one
/// that moves by nothing, or whose region is empty, changes nothing.
pub proof fn law_events_change_their_region<T>(
    images: Seq<TerminalImage<T>>,
    region_top: usize,
    region_bottom: usize,
    delta: i32,
    alt_screen: bool,
)
    ensures
        ({
            let scroll = ImageEvent::Scroll { region_top, region_bottom, delta };
            let erase = ImageEvent::Erase { region_top, region_bottom };
            let (top, bottom) = (region_top as int, region_bottom as int);
            &&& region_top >= region_bottom ==> after_event(images, scroll, alt_screen) == images
                && after_event(images, erase, alt_screen) == images
            &&& delta == 0 ==> after_event(images, scroll, alt_screen) == images
            &&& delta != 0 && top < bottom ==> after_event(images, scroll, alt_screen)
                == scrolled_images(images, top, bottom, delta as int, alt_screen)
            &&& top < bottom ==> after_event(images, erase, alt_screen) == remaining_images(
                images,
                top,
                bottom,
                alt_screen,
            )
        }),
{
}

/// Law: events are attended to in their order.
pub proof fn law_events_in_their_order<T>(
    images: Seq<TerminalImage<T>>,
    first: Seq<ImageEvent>,
    then_these: Seq<ImageEvent>,
    event: ImageEvent,
    alt_screen: bool,
)
    ensures
        after_events(images, seq![event], alt_screen) == after_event(images, event, alt_screen),
        after_events(images, first + then_these, alt_screen) == after_events(
            after_events(images, first, alt_screen),
            then_these,
            alt_screen,
        ),
    decreases first.len() + then_these.len(),
{
    reveal_with_fuel(after_events, 2);
    assert(seq![event].drop_last() =~= Seq::<ImageEvent>::empty());
    assert(seq![event].skip(1) =~= Seq::<ImageEvent>::empty());
    if then_these.len() == 0 {
        assert(first + then_these =~= first);
    } else {
        let all = first + then_these;
        assert(all.drop_last() =~= first + then_these.drop_last());
        law_events_in_their_order(images, first, then_these.drop_last(), event, alt_screen);
    }
}

/// Law: the rows that the grid scrolled are those by which the end of the image
/// is above where it would be without: the anchor and the rows of the image make
/// up the row of the cursor and what was scrolled.
pub proof fn law_scrolled_rows(anchor_row: int, occupied_rows: int, cursor_row: int)
    requires
        0 <= anchor_row,
        0 <= occupied_rows,
        0 <= cursor_row,
        anchor_row + occupied_rows <= usize::MAX,
    ensures
        cursor_row <= anchor_row + occupied_rows ==> rows_scrolled(
            anchor_row,
            occupied_rows,
            cursor_row,
        ) + cursor_row == anchor_row + occupied_rows,
        cursor_row > anchor_row + occupied_rows ==> rows_scrolled(
            anchor_row,
            occupied_rows,
            cursor_row,
        ) == 0,
{
}

} // verus!
