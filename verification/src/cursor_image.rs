//! Images of a named cursor: parsing them, choosing those of one size, and
//! animating them.

use vstd::prelude::*;

verus! {

/// One image of a cursor.
#[derive(Debug)]
pub struct Image {
    /// The nominal size.
    pub size: u32,
    /// The actual width, which need not match the nominal size.
    pub width: u32,
    /// The actual height, which need not match the nominal size.
    pub height: u32,
    pub xhot: u32,
    pub yhot: u32,
    /// How long the image is shown, in milliseconds.
    pub delay: u32,
    /// Four bytes per pixel, in the order of the file.
    pub pixels_rgba: Vec<u8>,
    /// Four bytes per pixel, alpha first.
    pub pixels_argb: Vec<u8>,
}

/// What an image holds.
pub struct ImageView {
    pub size: u32,
    pub width: u32,
    pub height: u32,
    pub xhot: u32,
    pub yhot: u32,
    pub delay: u32,
    pub pixels_rgba: Seq<u8>,
    pub pixels_argb: Seq<u8>,
}

impl View for Image {
    type V = ImageView;

    open spec fn view(&self) -> ImageView {
        ImageView {
            size: self.size,
            width: self.width,
            height: self.height,
            xhot: self.xhot,
            yhot: self.yhot,
            delay: self.delay,
            pixels_rgba: self.pixels_rgba@,
            pixels_argb: self.pixels_argb@,
        }
    }
}

/// What a list of images holds.
pub open spec fn views(images: Seq<Image>) -> Seq<ImageView> {
    Seq::new(images.len(), |i: int| images[i]@)
}

// ---------------------------------------------------------------------------
// Parsing
// ---------------------------------------------------------------------------

/// What the cursor file parser makes of the contents of a file.
pub uninterp spec fn parsed_images(content: Seq<u8>) -> Option<Seq<ImageView>>;

/// The image is neither empty nor too large, its hotspot lies within it, and it
/// has all of its pixels.
pub open spec fn well_formed_image(image: ImageView) -> bool {
    &&& 1 <= image.width <= 0x7fff
    &&& 1 <= image.height <= 0x7fff
    &&& image.xhot <= image.width
    &&& image.yhot <= image.height
    &&& image.pixels_rgba.len() == 4 * image.width * image.height
    &&& image.pixels_argb.len() == 4 * image.width * image.height
}

/// Parse a cursor file, with `xcursor::parser::parse_xcursor`.
///
/// What it returns depends on the bytes alone, and has a name here. Not proved is
/// also that every image that comes out is well formed: the parser fails on a
/// width or height of zero or above 0x7fff and on a hotspot outside the image, and
/// reads four bytes for each pixel.
#[verifier::external_body]
fn parse_file(content: &[u8]) -> (images: Option<Vec<Image>>)
    ensures
        (match images {
            Some(list) => parsed_images(content@) == Some(views(list@)),
            None => parsed_images(content@) is None,
        }),
        images matches Some(list) ==> forall|i: int|
            0 <= i < list@.len() ==> well_formed_image(#[trigger] list@[i]@),
{
    let convert = |i: xcursor::parser::Image| Image {
        size: i.size,
        width: i.width,
        height: i.height,
        xhot: i.xhot,
        yhot: i.yhot,
        delay: i.delay,
        pixels_rgba: i.pixels_rgba,
        pixels_argb: i.pixels_argb,
    };
    xcursor::parser::parse_xcursor(content).map(|list| list.into_iter().map(convert).collect())
}

// ---------------------------------------------------------------------------
// Choosing
// ---------------------------------------------------------------------------

/// How far the nominal size of an image is from the wanted one.
pub open spec fn distance(image: ImageView, size: i32) -> int {
    let d = size - (image.size as i32);
    if d < 0 {
        -d
    } else {
        d
    }
}

/// The first of the images whose size comes closest.
pub open spec fn closest(images: Seq<ImageView>, size: i32) -> int
    recommends
        images.len() > 0,
    decreases images.len(),
{
    if images.len() <= 1 {
        0
    } else {
        let before = closest(images.drop_last(), size);
        if distance(images.last(), size) < distance(images[before], size) {
            images.len() - 1
        } else {
            before
        }
    }
}

/// The images of the given width and height, in order.
pub open spec fn of_size(images: Seq<ImageView>, width: u32, height: u32) -> Seq<ImageView>
    decreases images.len(),
{
    if images.len() == 0 {
        seq![]
    } else {
        let before = of_size(images.drop_last(), width, height);
        if images.last().width == width && images.last().height == height {
            before.push(images.last())
        } else {
            before
        }
    }
}

/// The images that make up a cursor of the wanted size: all with the width and
/// height of the one whose size comes closest.
pub open spec fn chosen(images: Seq<ImageView>, size: i32) -> Seq<ImageView> {
    let best = images[closest(images, size)];
    of_size(images, best.width, best.height)
}

/// The time that it takes to show all images once.
pub open spec fn total_delay(images: Seq<ImageView>) -> int
    decreases images.len(),
{
    if images.len() == 0 {
        0
    } else {
        total_delay(images.drop_last()) + images.last().delay
    }
}

/// A cursor can be made of the images: there are some, and neither the distances
/// of their sizes nor the time that they take are out of range.
pub open spec fn usable(images: Seq<ImageView>, size: i32) -> bool {
    &&& images.len() > 0
    &&& forall|i: int|
        0 <= i < images.len() ==> distance(#[trigger] images[i], size) <= i32::MAX
    &&& total_delay(chosen(images, size)) <= u32::MAX
}

proof fn lemma_closest(images: Seq<ImageView>, size: i32)
    requires
        images.len() > 0,
    ensures
        0 <= closest(images, size) < images.len(),
        forall|i: int|
            0 <= i < images.len() ==> distance(images[closest(images, size)], size) <= distance(
                #[trigger] images[i],
                size,
            ),
        forall|i: int|
            0 <= i < closest(images, size) ==> distance(images[closest(images, size)], size)
                < distance(#[trigger] images[i], size),
    decreases images.len(),
{
    if images.len() > 1 {
        let front = images.drop_last();
        lemma_closest(front, size);
        let k = closest(front, size);
        assert forall|i: int| 0 <= i < images.len() implies distance(
            images[closest(images, size)],
            size,
        ) <= distance(#[trigger] images[i], size) by {
            if i < front.len() {
                assert(images[i] == front[i]);
            }
        }
        assert forall|i: int| 0 <= i < closest(images, size) implies distance(
            images[closest(images, size)],
            size,
        ) < distance(#[trigger] images[i], size) by {
            assert(images[i] == front[i]);
        }
    }
}

/// No image comes closer to the wanted size than the one that is chosen by, and of
/// those that come as close it is the first.
pub proof fn law_closest_is_first_of_the_nearest(images: Seq<ImageView>, size: i32, i: int)
    requires
        0 <= i < images.len(),
    ensures
        0 <= closest(images, size) < images.len(),
        distance(images[closest(images, size)], size) <= distance(images[i], size),
        i < closest(images, size) ==> distance(images[closest(images, size)], size) < distance(
            images[i],
            size,
        ),
{
    lemma_closest(images, size);
}

proof fn lemma_of_size(images: Seq<ImageView>, width: u32, height: u32)
    ensures
        forall|i: int|
            0 <= i < of_size(images, width, height).len() ==> {
                let image = #[trigger] of_size(images, width, height)[i];
                image.width == width && image.height == height && images.contains(image)
            },
        forall|i: int|
            0 <= i < images.len() && (#[trigger] images[i]).width == width && images[i].height
                == height ==> of_size(images, width, height).contains(images[i]),
    decreases images.len(),
{
    if images.len() > 0 {
        let front = images.drop_last();
        let before = of_size(front, width, height);
        let all = of_size(images, width, height);
        lemma_of_size(front, width, height);
        assert forall|i: int| 0 <= i < all.len() implies {
            let image = #[trigger] all[i];
            image.width == width && image.height == height && images.contains(image)
        } by {
            if i < before.len() {
                assert(all[i] == before[i]);
                let k = choose|k: int| 0 <= k < front.len() && front[k] == before[i];
                assert(images[k] == before[i]);
            } else {
                assert(images[images.len() - 1] == all[i]);
            }
        }
        assert forall|i: int|
            0 <= i < images.len() && (#[trigger] images[i]).width == width && images[i].height
                == height implies all.contains(images[i]) by {
            if i < front.len() {
                assert(images[i] == front[i]);
                let k = choose|k: int| 0 <= k < before.len() && before[k] == front[i];
                assert(all[k] == images[i]);
            } else {
                assert(all[all.len() - 1] == images[i]);
            }
        }
    }
}

/// The chosen images are exactly those that are as wide and as high as the closest
/// one, which is one of them.
pub proof fn law_chosen_images_are_of_one_size(images: Seq<ImageView>, size: i32, i: int)
    requires
        0 <= i < images.len(),
    ensures
        chosen(images, size).len() > 0,
        chosen(images, size).contains(images[i]) <==> images[i].width == images[closest(
            images,
            size,
        )].width && images[i].height == images[closest(images, size)].height,
        forall|j: int|
            0 <= j < chosen(images, size).len() ==> images.contains(
                #[trigger] chosen(images, size)[j],
            ),
{
    lemma_closest(images, size);
    let best = images[closest(images, size)];
    lemma_of_size(images, best.width, best.height);
    assert(chosen(images, size).contains(best));
    if chosen(images, size).contains(images[i]) {
        let k = choose|k: int|
            0 <= k < chosen(images, size).len() && chosen(images, size)[k] == images[i];
        assert(chosen(images, size)[k].width == best.width);
    }
}

proof fn lemma_of_size_is_filter(images: Seq<ImageView>, width: u32, height: u32)
    ensures
        of_size(images, width, height) == images.filter(
            |image: ImageView| image.width == width && image.height == height,
        ),
    decreases images.len(),
{
    let pick = |image: ImageView| image.width == width && image.height == height;
    reveal(Seq::filter);
    if images.len() > 0 {
        lemma_of_size_is_filter(images.drop_last(), width, height);
    } else {
        assert(images.filter(pick) =~= seq![]);
    }
}

/// A nominal size as a signed number: what does not fit is counted from the other end.
pub open spec fn signed_size(size: u32) -> int {
    if size <= 0x7fff_ffff {
        size as int
    } else {
        size - 0x1_0000_0000
    }
}

/// The images that make up a cursor are those with the width and height of one image,
/// all of them and in their order. No image of the file is closer to the wanted size
/// than that one, and none that comes before it is as close.
pub proof fn law_chosen_images_are_the_closest(images: Seq<ImageView>, size: i32)
    requires
        images.len() > 0,
    ensures
        exists|k: int|
            #![trigger images[k]]
            {
                &&& 0 <= k < images.len()
                &&& chosen(images, size) == images.filter(
                    |image: ImageView|
                        image.width == images[k].width && image.height == images[k].height,
                )
                &&& forall|i: int|
                    0 <= i < images.len() ==> vstd::math::abs(size - signed_size(images[k].size))
                        <= vstd::math::abs(size - signed_size((#[trigger] images[i]).size))
                &&& forall|i: int|
                    0 <= i < k ==> vstd::math::abs(size - signed_size(images[k].size))
                        < vstd::math::abs(size - signed_size((#[trigger] images[i]).size))
            },
{
    lemma_closest(images, size);
    let k = closest(images, size);
    lemma_of_size_is_filter(images, images[k].width, images[k].height);
    assert forall|i: int| 0 <= i < images.len() implies distance(#[trigger] images[i], size)
        == vstd::math::abs(size - signed_size(images[i].size)) by {
        let s: u32 = images[i].size;
        assert(s as i32 == (if s <= 0x7fff_ffffu32 { s as int } else { s - 0x1_0000_0000int }))
            by (bit_vector);
    }
    assert(distance(images[k], size) == vstd::math::abs(size - signed_size(images[k].size)));
}

/// The time that it takes to show all images once is the sum of their delays.
pub proof fn law_total_delay_is_the_sum(images: Seq<ImageView>)
    ensures
        total_delay(images) == images.fold_left(0int, |t: int, image: ImageView| t + image.delay),
    decreases images.len(),
{
    let add_delay = |t: int, image: ImageView| t + image.delay;
    if images.len() > 0 {
        law_total_delay_is_the_sum(images.drop_last());
    }
}

/// A cursor can be made of any images, as long as there are some, no size is further
/// from the wanted one than a signed number can tell, and the whole animation takes
/// no longer than an unsigned number can tell.
pub proof fn law_what_is_usable(images: Seq<ImageView>, size: i32)
    ensures
        usable(images, size) <==> images.len() > 0 && (forall|i: int|
            0 <= i < images.len() ==> vstd::math::abs(
                size - signed_size((#[trigger] images[i]).size),
            ) <= 0x7fff_ffff) && chosen(images, size).fold_left(
            0int,
            |t: int, image: ImageView| t + image.delay,
        ) <= 0xffff_ffff,
{
    law_total_delay_is_the_sum(chosen(images, size));
    assert forall|i: int| 0 <= i < images.len() implies distance(#[trigger] images[i], size)
        == vstd::math::abs(size - signed_size(images[i].size)) by {
        let s: u32 = images[i].size;
        assert(s as i32 == (if s <= 0x7fff_ffffu32 { s as int } else { s - 0x1_0000_0000int }))
            by (bit_vector);
    }
}

/// A cursor: its images, which are of one size, and the time that it takes to show
/// all of them once.
#[derive(Debug)]
pub struct XCursor {
    pub images: Vec<Image>,
    pub animation_duration: u32,
}

/// Why a cursor cannot be made of a file.
#[derive(Clone, Copy, Debug, PartialEq, Eq, Structural)]
pub enum LoadError {
    /// The file cannot be parsed.
    Malformed,
    /// No cursor can be made of the images in the file.
    Unusable,
}

fn within_range(image: &Image, size: i32) -> (r: bool)
    ensures
        r == (distance(image@, size) <= i32::MAX),
{
    let d: i64 = size as i64 - (image.size as i32) as i64;
    -0x7fff_ffff <= d && d <= 0x7fff_ffff
}

fn find_closest(images: &Vec<Image>, size: i32) -> (best: usize)
    requires
        images@.len() > 0,
        forall|i: int|
            0 <= i < images@.len() ==> distance(#[trigger] views(images@)[i], size) <= i32::MAX,
    ensures
        best == closest(views(images@), size),
        best < images@.len(),
{
    let ghost all = views(images@);
    let mut best: usize = 0;
    let mut i: usize = 1;
    assert(closest(all.take(1), size) == 0);
    while i < images.len()
        invariant
            all == views(images@),
            1 <= i <= images@.len(),
            best < i,
            best == closest(all.take(i as int), size),
            forall|j: int| 0 <= j < all.len() ==> distance(#[trigger] all[j], size) <= i32::MAX,
        decreases images@.len() - i,
    {
        assert(distance(all[best as int], size) <= i32::MAX);
        assert(distance(all[i as int], size) <= i32::MAX);
        let a: i32 = size - (images[i].size as i32);
        let b: i32 = size - (images[best].size as i32);
        let near: i32 = if a < 0 { -a } else { a };
        let nearest: i32 = if b < 0 { -b } else { b };
        assert(all.take(i + 1).drop_last() =~= all.take(i as int));
        if near < nearest {
            best = i;
        }
        i = i + 1;
    }
    assert(all.take(i as int) =~= all);
    best
}

proof fn lemma_total_delay_grows(images: Seq<ImageView>, width: u32, height: u32, i: int)
    requires
        0 <= i <= images.len(),
    ensures
        0 <= total_delay(of_size(images.take(i), width, height)) <= total_delay(
            of_size(images, width, height),
        ),
    decreases images.len(),
{
    if images.len() == 0 {
        assert(images.take(i) =~= images);
    } else {
        let front = images.drop_last();
        let last = images.last();
        let before = of_size(front, width, height);
        if last.width == width && last.height == height {
            assert(before.push(last).drop_last() =~= before);
        }
        if i == images.len() {
            assert(images.take(i) =~= images);
            lemma_total_delay_grows(front, width, height, front.len() as int);
            assert(front.take(front.len() as int) =~= front);
        } else {
            lemma_total_delay_grows(front, width, height, i);
            assert(front.take(i) =~= images.take(i));
        }
    }
}

/// Find out whether a cursor can be made of the images.
fn is_usable(images: &Vec<Image>, size: i32) -> (r: bool)
    ensures
        r == usable(views(images@), size),
{
    let ghost all = views(images@);
    if images.len() == 0 {
        return false;
    }
    let mut i: usize = 0;
    while i < images.len()
        invariant
            all == views(images@),
            i <= images@.len(),
            forall|j: int| 0 <= j < i ==> distance(#[trigger] all[j], size) <= i32::MAX,
        decreases images@.len() - i,
    {
        if !within_range(&images[i], size) {
            assert(distance(all[i as int], size) > i32::MAX);
            return false;
        }
        assert(distance(all[i as int], size) <= i32::MAX);
        i = i + 1;
    }
    let best: usize = find_closest(images, size);
    let width: u32 = images[best].width;
    let height: u32 = images[best].height;
    let mut total: u32 = 0;
    let mut j: usize = 0;
    assert(of_size(all.take(0), width, height) =~= seq![]);
    while j < images.len()
        invariant
            all == views(images@),
            j <= images@.len(),
            images@.len() > 0,
            width == all[closest(all, size)].width,
            height == all[closest(all, size)].height,
            total == total_delay(of_size(all.take(j as int), width, height)),
        decreases images@.len() - j,
    {
        let image: &Image = &images[j];
        proof {
            assert(all.take(j + 1).drop_last() =~= all.take(j as int));
            assert(all.take(j + 1).last() == image@);
            let before = of_size(all.take(j as int), width, height);
            assert(before.push(image@).drop_last() =~= before);
            lemma_total_delay_grows(all, width, height, j + 1);
        }
        if image.width == width && image.height == height {
            if image.delay > u32::MAX - total {
                return false;
            }
            total = total + image.delay;
        }
        j = j + 1;
    }
    assert(all.take(j as int) =~= all);
    true
}

/// Make a cursor of the images that come closest to the wanted size.
pub fn select_images(images: Vec<Image>, size: i32) -> (cursor: XCursor)
    requires
        usable(views(images@), size),
    ensures
        views(cursor.images@) == chosen(views(images@), size),
        cursor.animation_duration == total_delay(chosen(views(images@), size)),
        cursor.wf(),
{
    let ghost all = views(images@);
    let best: usize = find_closest(&images, size);
    let width: u32 = images[best].width;
    let height: u32 = images[best].height;
    let mut rest: Vec<Image> = images;
    let mut kept: Vec<Image> = Vec::new();
    let mut total: u32 = 0;
    let ghost mut done: int = 0;
    assert(views(kept@) =~= of_size(all.take(0), width, height));
    while rest.len() > 0
        invariant
            0 <= done <= all.len(),
            rest@.len() == all.len() - done,
            forall|k: int| 0 <= k < rest@.len() ==> (#[trigger] rest@[k])@ == all[done + k],
            width == all[closest(all, size)].width,
            height == all[closest(all, size)].height,
            usable(all, size),
            views(kept@) == of_size(all.take(done), width, height),
            total == total_delay(of_size(all.take(done), width, height)),
        decreases rest@.len(),
    {
        let image: Image = rest.remove(0);
        proof {
            assert(all.take(done + 1).drop_last() =~= all.take(done));
            assert(all.take(done + 1).last() == image@);
            let before = of_size(all.take(done), width, height);
            assert(before.push(image@).drop_last() =~= before);
            lemma_total_delay_grows(all, width, height, done + 1);
            done = done + 1;
        }
        if image.width == width && image.height == height {
            total = total + image.delay;
            let ghost before = kept@;
            let ghost shown = image@;
            kept.push(image);
            assert(views(kept@) =~= views(before).push(shown));
        }
    }
    assert(all.take(done) =~= all);
    proof {
        law_chosen_images_are_of_one_size(all, size, 0);
        lemma_of_size(all, width, height);
        assert forall|i: int| 0 <= i < kept@.len() implies (#[trigger] kept@[i]).width
            == kept@[0].width && kept@[i].height == kept@[0].height by {
            assert(views(kept@)[i].width == width && views(kept@)[i].height == height);
            assert(views(kept@)[0].width == width && views(kept@)[0].height == height);
        }
    }
    XCursor { images: kept, animation_duration: total }
}

/// What becomes of the contents of a cursor file.
pub open spec fn load_error(content: Seq<u8>, size: i32) -> Option<LoadError> {
    match parsed_images(content) {
        None => Some(LoadError::Malformed),
        Some(images) => if usable(images, size) {
            None
        } else {
            Some(LoadError::Unusable)
        },
    }
}

/// Make a cursor of the contents of a cursor file.
pub fn load_xcursor(content: &[u8], size: i32) -> (result: Result<XCursor, LoadError>)
    ensures
        (match result {
            Err(e) => load_error(content@, size) == Some(e),
            Ok(cursor) => {
                &&& load_error(content@, size) is None
                &&& views(cursor.images@) == chosen(parsed_images(content@).unwrap(), size)
                &&& cursor.wf()
            },
        }),
{
    match parse_file(content) {
        None => Err(LoadError::Malformed),
        Some(images) => {
            if is_usable(&images, size) {
                Ok(select_images(images, size))
            } else {
                Err(LoadError::Unusable)
            }
        },
    }
}

/// The cursor to fall back to, of the given pixels.
pub fn fallback_cursor(pixels_rgba: Vec<u8>) -> (cursor: XCursor)
    ensures
        views(cursor.images@) == seq![
            ImageView {
                size: 32,
                width: 64,
                height: 64,
                xhot: 1,
                yhot: 1,
                delay: 0,
                pixels_rgba: pixels_rgba@,
                pixels_argb: seq![],
            },
        ],
        cursor.animation_duration == 0,
        cursor.wf(),
{
    let pixels_argb: Vec<u8> = Vec::new();
    let ghost argb = pixels_argb@;
    let mut images: Vec<Image> = Vec::new();
    images.push(
        Image {
            size: 32,
            width: 64,
            height: 64,
            xhot: 1,
            yhot: 1,
            delay: 0,
            pixels_rgba,
            pixels_argb,
        },
    );
    proof {
        assert(argb =~= seq![]);
        let shown = views(images@);
        assert(shown.drop_last() =~= seq![]);
        assert(total_delay(shown.drop_last()) == 0);
        assert(total_delay(shown) == 0);
        assert(shown =~= seq![images@[0]@]);
    }
    XCursor { images, animation_duration: 0 }
}

// ---------------------------------------------------------------------------
// Animation
// ---------------------------------------------------------------------------

/// The time at which an image begins to be shown.
pub open spec fn starts_at(images: Seq<ImageView>, i: int) -> int {
    total_delay(images.take(i))
}

/// The image that is shown at a time within one round of the animation.
pub open spec fn shown_at(images: Seq<ImageView>, i: int, time: int) -> bool {
    0 <= i < images.len() && starts_at(images, i) <= time < starts_at(images, i + 1)
}

proof fn lemma_starts_grow(images: Seq<ImageView>, i: int, j: int)
    requires
        0 <= i <= j <= images.len(),
    ensures
        starts_at(images, i) <= starts_at(images, j),
    decreases j,
{
    if i < j {
        lemma_starts_grow(images, i, j - 1);
        assert(images.take(j).drop_last() =~= images.take(j - 1));
    }
}

/// At any time no more than one image is shown.
pub proof fn law_one_image_at_a_time(images: Seq<ImageView>, i: int, j: int, time: int)
    requires
        shown_at(images, i, time),
        shown_at(images, j, time),
    ensures
        i == j,
{
    if i < j {
        lemma_starts_grow(images, i + 1, j);
    }
    if j < i {
        lemma_starts_grow(images, j + 1, i);
    }
}

impl XCursor {
    /// There is an image, all are of one size, and the duration is that of all of
    /// them.
    pub open spec fn wf(&self) -> bool {
        &&& self.images@.len() > 0
        &&& self.animation_duration == total_delay(views(self.images@))
        &&& forall|i: int|
            0 <= i < self.images@.len() ==> (#[trigger] self.images@[i]).width
                == self.images@[0].width && self.images@[i].height == self.images@[0].height
    }

    /// The time within one round of the animation.
    pub open spec fn wrapped(&self, millis: u32) -> int {
        millis as int % self.animation_duration as int
    }

    /// The image that is shown at a time: without an animation the first, otherwise
    /// the one for the time within one round.
    pub open spec fn is_frame(&self, millis: u32, i: int) -> bool {
        if self.animation_duration == 0 {
            i == 0
        } else {
            shown_at(views(self.images@), i, self.wrapped(millis))
        }
    }

    /// The image to show at a time, with its place among the images. The time wraps
    /// around after each round of the animation.
    pub fn frame(&self, millis: u32) -> (shown: (usize, &Image))
        requires
            self.wf(),
        ensures
            shown.0 < self.images@.len(),
            self.is_frame(millis, shown.0 as int),
            *shown.1 == self.images@[shown.0 as int],
    {
        if self.animation_duration == 0 {
            return (0, &self.images[0]);
        }
        let ghost all = views(self.images@);
        let mut left: u32 = millis % self.animation_duration;
        let mut i: usize = 0;
        assert(all.take(0) =~= seq![]);
        assert(all.take(all.len() as int) =~= all);
        while i < self.images.len()
            invariant
                self.wf(),
                all == views(self.images@),
                all.take(all.len() as int) =~= all,
                self.animation_duration > 0,
                i <= self.images@.len(),
                left + starts_at(all, i as int) == self.wrapped(millis),
                0 <= self.wrapped(millis) < self.animation_duration,
            decreases self.images@.len() - i,
        {
            let delay: u32 = self.images[i].delay;
            proof {
                assert(all.take(i + 1).drop_last() =~= all.take(i as int));
                assert(all.take(i + 1).last() == self.images@[i as int]@);
            }
            if left < delay {
                return (i, &self.images[i]);
            }
            left = left - delay;
            i = i + 1;
        }
        // The images cover the whole round, so that one of them was found.
        assert(false);
        (0, &self.images[0])
    }

    /// How much time remains until the next image is to be shown; none without an
    /// animation.
    pub fn time_to_next_frame(&self, millis: u32) -> (rest: Option<u32>)
        requires
            self.wf(),
        ensures
            (match rest {
                None => self.animation_duration == 0,
                Some(rest) => {
                    &&& self.animation_duration > 0
                    &&& exists|i: int| #[trigger]
                        self.is_frame(millis, i) && rest == starts_at(views(self.images@), i + 1)
                            - self.wrapped(millis)
                },
            }),
    {
        if self.animation_duration == 0 {
            return None;
        }
        let (i, _image) = self.frame(millis);
        let ghost all = views(self.images@);
        let mut end: u32 = 0;
        let mut k: usize = 0;
        assert(all.take(0) =~= seq![]);
        assert(all.take(all.len() as int) =~= all);
        while k <= i
            invariant
                self.wf(),
                all == views(self.images@),
                all.take(all.len() as int) =~= all,
                i < self.images@.len(),
                k <= i + 1,
                end == starts_at(all, k as int),
            decreases i + 1 - k,
        {
            proof {
                assert(all.take(k + 1).drop_last() =~= all.take(k as int));
                assert(all.take(k + 1).last() == self.images@[k as int]@);
                lemma_starts_grow(all, k + 1, all.len() as int);
                assert(k < self.images.len());
            }
            end = end + self.images[k].delay;
            k = k + 1;
        }
        Some(end - millis % self.animation_duration)
    }

    /// The images.
    pub fn frames(&self) -> (images: &Vec<Image>)
        ensures
            *images == self.images,
    {
        &self.images
    }

    /// Whether there is more than one image.
    pub fn is_animated_cursor(&self) -> (r: bool)
        ensures
            r == (self.images@.len() > 1),
    {
        self.images.len() > 1
    }

    /// The hotspot of an image.
    pub fn hotspot(image: &Image) -> (spot: (i32, i32))
        ensures
            spot == (image.xhot as i32, image.yhot as i32),
    {
        (image.xhot as i32, image.yhot as i32)
    }
}

/// The animation repeats: a round later the same image is shown.
pub proof fn law_animation_repeats(cursor: XCursor, millis: u32, rounds: nat, i: int)
    requires
        cursor.animation_duration > 0,
        millis + rounds * cursor.animation_duration <= u32::MAX,
    ensures
        cursor.is_frame(millis, i) == cursor.is_frame(
            (millis + rounds * cursor.animation_duration) as u32,
            i,
        ),
{
    vstd::arithmetic::div_mod::lemma_mod_multiples_vanish(
        rounds as int,
        millis as int,
        cursor.animation_duration as int,
    );
    assert(cursor.animation_duration as int * rounds as int == rounds * cursor.animation_duration)
        by (nonlinear_arith);
}

/// The image that is shown at a time is the one whose turn it is: the images before it
/// take no longer than the time within the round, and with its own delay they take
/// longer.
pub proof fn law_shown_image_has_its_turn(cursor: XCursor, millis: u32, i: int)
    requires
        cursor.animation_duration > 0,
        0 <= i < cursor.images@.len(),
    ensures
        cursor.is_frame(millis, i) <==> views(cursor.images@).take(i).fold_left(
            0int,
            |t: int, image: ImageView| t + image.delay,
        ) <= millis as int % cursor.animation_duration as int && (millis as int
            % cursor.animation_duration as int) < views(cursor.images@).take(i).fold_left(
            0int,
            |t: int, image: ImageView| t + image.delay,
        ) + cursor.images@[i].delay,
{
    let all = views(cursor.images@);
    law_total_delay_is_the_sum(all.take(i));
    assert(all.take(i + 1).drop_last() =~= all.take(i));
    assert(all.take(i + 1).last() == cursor.images@[i]@);
}

/// Without a duration the first image is shown, and no other.
pub proof fn law_still_cursor_shows_its_first_image(cursor: XCursor, millis: u32, i: int)
    requires
        cursor.animation_duration == 0,
    ensures
        cursor.is_frame(millis, i) <==> i == 0,
{
}

/// The time that remains until the next image is to be shown is never zero and never
/// longer than the image is shown; until it is over the same image stays, and then
/// another one, or the same in the next round.
pub proof fn law_image_stays_until_the_next(cursor: XCursor, millis: u32, i: int, wait: u32)
    requires
        cursor.wf(),
        cursor.animation_duration > 0,
        cursor.is_frame(millis, i),
        millis + wait <= u32::MAX,
    ensures
        ({
            let rest = starts_at(views(cursor.images@), i + 1) - cursor.wrapped(millis);
            &&& 0 < rest <= cursor.images@[i].delay
            &&& wait < rest ==> cursor.is_frame((millis + wait) as u32, i)
            &&& wait == rest && cursor.is_frame((millis + wait) as u32, i) ==> cursor.images@[i].delay
                == cursor.animation_duration
        }),
{
    let all = views(cursor.images@);
    let n = cursor.animation_duration as int;
    let now = millis as int % n;
    let rest = starts_at(all, i + 1) - now;
    assert(all.take(i + 1).drop_last() =~= all.take(i));
    assert(all.take(i + 1).last() == cursor.images@[i]@);
    lemma_starts_grow(all, i + 1, all.len() as int);
    lemma_starts_grow(all, 0, i);
    assert(all.take(all.len() as int) =~= all);
    assert(all.take(0) =~= seq![]);
    vstd::arithmetic::div_mod::lemma_fundamental_div_mod(millis as int, n);
    let q = millis as int / n;
    assert(n * q == q * n) by (nonlinear_arith);
    if wait <= rest {
        if now + wait < n {
            vstd::arithmetic::div_mod::lemma_fundamental_div_mod_converse(
                millis + wait,
                n,
                q,
                now + wait,
            );
        } else {
            assert(now + wait == n);
            assert((q + 1) * n == q * n + n) by (nonlinear_arith);
            vstd::arithmetic::div_mod::lemma_fundamental_div_mod_converse(
                millis + wait,
                n,
                q + 1,
                0,
            );
        }
    }
}

/// A file makes a cursor exactly when it can be parsed and a cursor can be made of its
/// images; otherwise the error says which of the two fails.
pub proof fn law_why_a_file_makes_no_cursor(content: Seq<u8>, size: i32)
    ensures
        load_error(content, size) is None <==> (parsed_images(content) matches Some(images)
            && usable(images, size)),
        load_error(content, size) == Some(LoadError::Malformed) <==> parsed_images(content) is None,
        load_error(content, size) == Some(LoadError::Unusable) <==> (parsed_images(content) matches
            Some(images) && !usable(images, size)),
{
}

} // verus!
