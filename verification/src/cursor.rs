//! The cursor: which one is current, which named cursors have been loaded, and
//! which of their textures have been imported.

use vstd::prelude::*;

use crate::cursor_image::{
    chosen, fallback_cursor, load_error, load_xcursor, parsed_images, views, ImageView, XCursor,
};
use crate::icon::{icon_alt_names, texts, CursorIcon, DEFAULT_NAME};
use crate::keyed_cache::{Key, KeyedCache};

verus! {

// ---------------------------------------------------------------------------
// Loading a cursor
// ---------------------------------------------------------------------------

/// A cursor that is being loaded: its names are tried one after the other, until
/// the file of one of them makes a cursor.
#[derive(Debug)]
pub struct CursorLoad {
    pub icon: CursorIcon,
    pub scale: i32,
    /// The wanted size.
    pub size: i32,
    /// The number of names that were tried.
    pub tried: usize,
    pub found: Option<XCursor>,
}

impl CursorLoad {
    /// No more names have been tried than there are, and what was found is a cursor.
    pub open spec fn wf(&self) -> bool {
        &&& self.icon.alt_names@.len() < usize::MAX
        &&& self.tried <= self.icon.alt_names@.len() + 1
        &&& self.found matches Some(c) ==> c.wf()
    }

    /// The name to try next: that of the icon, then its alternatives.
    pub open spec fn wanted(&self) -> Option<Seq<char>> {
        if self.found is Some || self.tried > self.icon.alt_names@.len() {
            None
        } else if self.tried == 0 {
            Some(self.icon.name@)
        } else {
            Some(self.icon.alt_names@[self.tried - 1]@)
        }
    }

    /// The name whose file is to be read next.
    pub fn next_name(&self) -> (name: Option<&String>)
        ensures
            (match name {
                Some(n) => self.wanted() == Some(n@),
                None => self.wanted() is None,
            }),
    {
        if self.found.is_some() || self.tried > self.icon.alt_names.len() {
            None
        } else if self.tried == 0 {
            Some(&self.icon.name)
        } else {
            Some(&self.icon.alt_names[self.tried - 1])
        }
    }

    /// Go on with the contents of the file of the name that was tried, if it could
    /// be read. A file that makes no cursor is passed over, whatever is wrong with it.
    pub fn supply(&mut self, content: Option<Vec<u8>>)
        requires
            old(self).wf(),
            old(self).wanted() is Some,
        ensures
            final(self).wf(),
            *final(self) == (CursorLoad {
                tried: final(self).tried,
                found: final(self).found,
                ..*old(self)
            }),
            final(self).tried == old(self).tried + 1,
            (match content {
                Some(bytes) if load_error(bytes@, old(self).size) is None => {
                    &&& final(self).found matches Some(c)
                    &&& views(c.images@) == chosen(
                        parsed_images(bytes@).unwrap(),
                        old(self).size,
                    )
                },
                _ => final(self).found is None,
            }),
    {
        if let Some(bytes) = content {
            if let Ok(cursor) = load_xcursor(bytes.as_slice(), self.size) {
                self.found = Some(cursor);
            }
        }
        self.tried = self.tried + 1;
    }
}

/// The name of the icon is tried first; nothing more is asked for once a cursor was
/// found, and nothing is given up before all names were tried.
pub proof fn law_names_are_tried_in_order(load: CursorLoad)
    requires
        load.wf(),
    ensures
        load.found is Some ==> load.wanted() is None,
        load.wanted() is None <==> load.found is Some || load.tried == load.icon.alt_names@.len()
            + 1,
        load.tried == 0 && load.found is None ==> load.wanted() == Some(load.icon.name@),
{
}

// ---------------------------------------------------------------------------
// The manager
// ---------------------------------------------------------------------------

/// What the cursor looks like.
#[derive(Debug)]
pub enum CursorImageStatus {
    Hidden,
    /// A surface of a client, by its number.
    Surface(u64),
    Named(CursorIcon),
}

/// The cursor prepared for the renderer.
#[derive(Debug)]
pub enum RenderCursor<'a> {
    Hidden,
    Surface { hotspot: (i32, i32), surface: u64 },
    Named { icon: CursorIcon, scale: i32, cursor: &'a XCursor },
}

/// What is known of a named cursor.
#[derive(Debug)]
pub enum Lookup<'a> {
    /// It has to be loaded first.
    Load,
    /// It could not be loaded.
    Missing,
    Found(&'a XCursor),
}

/// The current cursor, and the named cursors that have been loaded.
#[derive(Debug)]
pub struct CursorManager {
    pub size: u8,
    pub current_cursor: CursorImageStatus,
    pub cache: KeyedCache<Option<XCursor>>,
    /// The pixels of the cursor to fall back to.
    pub fallback: Vec<u8>,
}

/// The default icon, with its alternative names.
pub open spec fn is_default_icon(icon: CursorIcon) -> bool {
    icon.name@ == DEFAULT_NAME@ && icon_alt_names(DEFAULT_NAME@) == Some(texts(icon.alt_names@))
}

/// The icons have the same names.
pub open spec fn same_icon(a: CursorIcon, b: CursorIcon) -> bool {
    a.name@ == b.name@ && texts(a.alt_names@) == texts(b.alt_names@)
}

/// What a cache knows of a named cursor.
pub open spec fn known(cache: Map<Key, Option<XCursor>>, name: Seq<char>, scale: i32) -> Option<
    Option<XCursor>,
> {
    if cache.contains_key((name, scale, 0)) {
        Some(cache[(name, scale, 0)])
    } else {
        None
    }
}

/// The cursor with these images is the one to fall back to.
pub open spec fn is_fallback(cursor: XCursor, pixels: Seq<u8>) -> bool {
    &&& views(cursor.images@) == seq![
        ImageView {
            size: 32,
            width: 64,
            height: 64,
            xhot: 1,
            yhot: 1,
            delay: 0,
            pixels_rgba: pixels,
            pixels_argb: seq![],
        },
    ]
    &&& cursor.animation_duration == 0
}

/// What a load adds to the cache: what was found or, for the default icon, always a
/// cursor.
pub open spec fn is_load_result(
    load: CursorLoad,
    fallback: Seq<u8>,
    result: Option<XCursor>,
) -> bool {
    if load.found is None && load.icon.name@ == DEFAULT_NAME@ {
        result matches Some(c) && is_fallback(c, fallback)
    } else {
        result == load.found
    }
}

fn copy_bytes(bytes: &Vec<u8>) -> (copy: Vec<u8>)
    ensures
        copy@ == bytes@,
{
    let mut copy: Vec<u8> = Vec::new();
    while copy.len() < bytes.len()
        invariant
            copy@.len() <= bytes@.len(),
            copy@ == bytes@.take(copy@.len() as int),
        decreases bytes@.len() - copy@.len(),
    {
        let i: usize = copy.len();
        copy.push(bytes[i]);
        assert(copy@ =~= bytes@.take(i + 1));
    }
    assert(bytes@.take(copy@.len() as int) =~= bytes@);
    copy
}

impl CursorManager {
    /// Every loaded cursor is one, and the default cursor is always there once it
    /// has been loaded.
    pub open spec fn wf(&self) -> bool {
        &&& self.cache.wf()
        &&& forall|key: Key| #[trigger]
            self.cache@.contains_key(key) ==> (self.cache@[key] matches Some(c) ==> c.wf())
        &&& forall|scale: i32| #[trigger]
            known(self.cache@, DEFAULT_NAME@, scale) != Some(None::<XCursor>)
    }

    /// What is known of a named cursor: nothing, that it is missing, or the cursor.
    pub open spec fn loaded(&self, name: Seq<char>, scale: i32) -> Option<Option<XCursor>> {
        known(self.cache@, name, scale)
    }

    /// A manager for cursors of the given size. It falls back to the given pixels.
    pub fn new(size: u8, fallback: Vec<u8>) -> (manager: Self)
        ensures
            manager.wf(),
            manager.size == size,
            manager.fallback == fallback,
            manager.cache@ == Map::<Key, Option<XCursor>>::empty(),
            manager.current_cursor matches CursorImageStatus::Named(icon) && is_default_icon(icon),
    {
        CursorManager {
            size,
            current_cursor: CursorImageStatus::Named(CursorIcon::default_icon()),
            cache: KeyedCache::new(),
            fallback,
        }
    }

    /// Go over to another theme or size: all cursors have to be loaded anew.
    pub fn reload(&mut self, size: u8)
        ensures
            final(self).wf(),
            final(self).size == size,
            final(self).current_cursor == old(self).current_cursor,
            final(self).fallback == old(self).fallback,
            final(self).cache@ == Map::<Key, Option<XCursor>>::empty(),
    {
        self.size = size;
        self.cache.clear();
    }

    /// Go back to the default cursor if the current one is a surface that is gone.
    pub fn check_cursor_image_surface_alive(&mut self, alive: bool)
        requires
            old(self).wf(),
        ensures
            final(self).wf(),
            *final(self) == (CursorManager {
                current_cursor: final(self).current_cursor,
                ..*old(self)
            }),
            if old(self).current_cursor is Surface && !alive {
                final(self).current_cursor matches CursorImageStatus::Named(icon)
                    && is_default_icon(icon)
            } else {
                final(self).current_cursor == old(self).current_cursor
            },
    {
        let gone: bool = match &self.current_cursor {
            CursorImageStatus::Surface(_) => !alive,
            _ => false,
        };
        if gone {
            self.current_cursor = CursorImageStatus::Named(CursorIcon::default_icon());
        }
    }

    /// The current cursor.
    pub fn cursor_image(&self) -> (status: &CursorImageStatus)
        ensures
            *status == self.current_cursor,
    {
        &self.current_cursor
    }

    /// Set the current cursor.
    pub fn set_cursor_image(&mut self, cursor: CursorImageStatus)
        requires
            old(self).wf(),
        ensures
            final(self).wf(),
            *final(self) == (CursorManager { current_cursor: cursor, ..*old(self) }),
    {
        self.current_cursor = cursor;
    }

    /// Look up a named cursor.
    pub fn get_cursor_with_name(&self, icon: &CursorIcon, scale: i32) -> (found: Lookup)
        requires
            self.wf(),
        ensures
            (match found {
                Lookup::Load => self.loaded(icon.name@, scale) is None,
                Lookup::Missing => self.loaded(icon.name@, scale) == Some(None::<XCursor>),
                Lookup::Found(c) => self.loaded(icon.name@, scale) == Some(Some(*c)) && c.wf(),
            }),
    {
        match self.cache.get(&icon.name, scale, 0) {
            None => Lookup::Load,
            Some(None) => Lookup::Missing,
            Some(Some(cursor)) => Lookup::Found(cursor),
        }
    }

    /// Begin to load a named cursor.
    pub fn begin_load(&self, icon: &CursorIcon, scale: i32) -> (load: CursorLoad)
        requires
            i32::MIN <= self.size * scale <= i32::MAX,
            icon.alt_names@.len() < usize::MAX,
        ensures
            load.wf(),
            load.icon.name@ == icon.name@,
            texts(load.icon.alt_names@) == texts(icon.alt_names@),
            load.scale == scale,
            load.size == self.size * scale,
            load.tried == 0,
            load.found is None,
    {
        CursorLoad {
            icon: icon.clone(),
            scale,
            size: self.size as i32 * scale,
            tried: 0,
            found: None,
        }
    }

    /// Remember what a load came to. The default cursor always has a fallback.
    pub fn finish_load(&mut self, load: CursorLoad)
        requires
            old(self).wf(),
            load.wf(),
            load.wanted() is None,
        ensures
            final(self).wf(),
            *final(self) == (CursorManager { cache: final(self).cache, ..*old(self) }),
            exists|result: Option<XCursor>| #[trigger]
                is_load_result(load, old(self).fallback@, result) && final(self).cache@ == old(
                    self,
                ).cache@.insert((load.icon.name@, load.scale, 0), result),
    {
        let ghost key = (load.icon.name@, load.scale, 0usize);
        let missing: bool = load.found.is_none();
        let default: bool = load.icon.is_default();
        let ghost was = load;
        let result: Option<XCursor> = if missing && default {
            Some(fallback_cursor(copy_bytes(&self.fallback)))
        } else {
            load.found
        };
        let ghost kept = result;
        self.cache.insert(&load.icon.name, load.scale, 0, result);
        proof {
            assert(is_load_result(was, old(self).fallback@, kept));
            assert forall|k: Key| #[trigger] self.cache@.contains_key(k) implies (
            self.cache@[k] matches Some(c) ==> c.wf()) by {
                if k != key {
                    assert(old(self).cache@.contains_key(k));
                }
            }
            assert forall|scale: i32| #[trigger]
                known(self.cache@, DEFAULT_NAME@, scale) != Some(None::<XCursor>) by {
                assert(known(old(self).cache@, DEFAULT_NAME@, scale) != Some(None::<XCursor>));
            }
        }
    }

    /// The default cursor, if it has been loaded: it is never missing.
    pub fn get_default_cursor(&self, scale: i32) -> (cursor: Option<&XCursor>)
        requires
            self.wf(),
        ensures
            (match cursor {
                Some(c) => self.loaded(DEFAULT_NAME@, scale) == Some(Some(*c)) && c.wf(),
                None => self.loaded(DEFAULT_NAME@, scale) is None,
            }),
    {
        assert(known(self.cache@, DEFAULT_NAME@, scale) != Some(None::<XCursor>));
        match self.get_cursor_with_name(&CursorIcon::default_icon(), scale) {
            Lookup::Found(cursor) => Some(cursor),
            _ => None,
        }
    }

    /// The name under which a named cursor is shown: its own, or that of the
    /// default cursor when it is missing.
    pub open spec fn shown_name(&self, name: Seq<char>, scale: i32) -> Seq<char> {
        if self.loaded(name, scale) == Some(None::<XCursor>) {
            DEFAULT_NAME@
        } else {
            name
        }
    }

    /// The icon that a named cursor is shown as: itself, or the default icon when it
    /// is missing.
    pub open spec fn shown_as(&self, icon: CursorIcon, scale: i32, shown: CursorIcon) -> bool {
        if self.loaded(icon.name@, scale) == Some(None::<XCursor>) {
            is_default_icon(shown)
        } else {
            same_icon(shown, icon)
        }
    }

    /// The icon that a named cursor is shown as, with its cursor; or the icon that
    /// has to be loaded first.
    fn resolve(&self, icon: &CursorIcon, scale: i32) -> (result: Result<
        (CursorIcon, &XCursor),
        CursorIcon,
    >)
        requires
            self.wf(),
        ensures
            (match result {
                Ok((shown, cursor)) => {
                    &&& self.shown_as(*icon, scale, shown)
                    &&& self.loaded(shown.name@, scale) == Some(Some(*cursor))
                    &&& cursor.wf()
                },
                Err(wanted) => {
                    &&& self.shown_as(*icon, scale, wanted)
                    &&& self.loaded(wanted.name@, scale) is None
                },
            }),
    {
        match self.get_cursor_with_name(icon, scale) {
            Lookup::Load => Err(icon.clone()),
            Lookup::Found(cursor) => Ok((icon.clone(), cursor)),
            Lookup::Missing => match self.get_default_cursor(scale) {
                Some(cursor) => Ok((CursorIcon::default_icon(), cursor)),
                None => Err(CursorIcon::default_icon()),
            },
        }
    }

    /// The cursor to render. The error is an icon that has to be loaded first.
    ///
    /// `hotspot` is that of the current surface, if the cursor is one.
    pub fn get_render_cursor(&self, scale: i32, hotspot: (i32, i32)) -> (result: Result<
        RenderCursor,
        CursorIcon,
    >)
        requires
            self.wf(),
        ensures
            (match self.current_cursor {
                CursorImageStatus::Hidden => result matches Ok(RenderCursor::Hidden),
                CursorImageStatus::Surface(number) => result matches Ok(
                    RenderCursor::Surface { hotspot: h, surface },
                ) && h == hotspot && surface == number,
                CursorImageStatus::Named(icon) => match result {
                    Ok(RenderCursor::Named { icon: shown, scale: s, cursor }) => {
                        &&& self.shown_as(icon, scale, shown)
                        &&& s == scale
                        &&& self.loaded(shown.name@, scale) == Some(Some(*cursor))
                        &&& cursor.wf()
                    },
                    Ok(_) => false,
                    Err(wanted) => {
                        &&& self.shown_as(icon, scale, wanted)
                        &&& self.loaded(wanted.name@, scale) is None
                    },
                },
            }),
    {
        match &self.current_cursor {
            CursorImageStatus::Hidden => Ok(RenderCursor::Hidden),
            CursorImageStatus::Surface(surface) => Ok(
                RenderCursor::Surface { hotspot, surface: *surface },
            ),
            CursorImageStatus::Named(icon) => match self.resolve(icon, scale) {
                Ok((icon, cursor)) => Ok(RenderCursor::Named { icon, scale, cursor }),
                Err(wanted) => Err(wanted),
            },
        }
    }

    /// Whether the current cursor is animated: a named cursor of more than one
    /// image. The error is an icon that has to be loaded first.
    pub fn is_current_cursor_animated(&self, scale: i32) -> (result: Result<bool, CursorIcon>)
        requires
            self.wf(),
        ensures
            (match self.current_cursor {
                CursorImageStatus::Named(icon) => match result {
                    Ok(animated) => {
                        &&& self.loaded(self.shown_name(icon.name@, scale), scale) matches Some(
                            Some(c),
                        )
                        &&& animated == (c.images@.len() > 1)
                    },
                    Err(wanted) => {
                        &&& self.shown_as(icon, scale, wanted)
                        &&& self.loaded(wanted.name@, scale) is None
                    },
                },
                _ => result == Ok::<bool, CursorIcon>(false),
            }),
    {
        match &self.current_cursor {
            CursorImageStatus::Named(icon) => match self.resolve(icon, scale) {
                Ok((_icon, cursor)) => Ok(cursor.is_animated_cursor()),
                Err(wanted) => Err(wanted),
            },
            _ => Ok(false),
        }
    }
}

/// Once an icon and the default icon have been loaded, there is a cursor to show
/// for the icon.
pub proof fn law_loaded_icons_have_a_cursor(manager: CursorManager, name: Seq<char>, scale: i32)
    requires
        manager.wf(),
        manager.loaded(name, scale) is Some,
        manager.loaded(DEFAULT_NAME@, scale) is Some,
    ensures
        manager.loaded(manager.shown_name(name, scale), scale) matches Some(Some(c)) && c.wf(),
{
    assert(known(manager.cache@, DEFAULT_NAME@, scale) != Some(None::<XCursor>));
    assert(manager.cache@.contains_key((manager.shown_name(name, scale), scale, 0usize)));
}

/// The default cursor is always there once its load has come to an end, whatever
/// became of its files, and has an image to show.
pub proof fn law_default_cursor_has_a_fallback(
    before: CursorManager,
    after: CursorManager,
    load: CursorLoad,
    result: Option<XCursor>,
)
    requires
        load.wf(),
        load.icon.name@ == DEFAULT_NAME@,
        is_load_result(load, before.fallback@, result),
        after.cache@ == before.cache@.insert((load.icon.name@, load.scale, 0usize), result),
    ensures
        after.loaded(DEFAULT_NAME@, load.scale) matches Some(Some(c)) && c.images@.len() > 0,
{
    if load.found is None {
        let c = result.unwrap();
        assert(views(c.images@).len() == 1);
    }
}

/// A cursor is loaded once: what a load came to is found from then on, and says
/// nothing of other icons and scales.
pub proof fn law_loads_are_remembered(
    before: CursorManager,
    after: CursorManager,
    name: Seq<char>,
    scale: i32,
    result: Option<XCursor>,
    other: Seq<char>,
    other_scale: i32,
)
    requires
        after.cache@ == before.cache@.insert((name, scale, 0usize), result),
    ensures
        after.loaded(name, scale) == Some(result),
        (other, other_scale) != (name, scale) ==> after.loaded(other, other_scale)
            == before.loaded(other, other_scale),
{
}

// ---------------------------------------------------------------------------
// Textures
// ---------------------------------------------------------------------------

/// A texture and the renderer that it belongs to.
#[derive(Clone, Copy, Debug, PartialEq, Eq, Structural)]
pub struct ContextTexture {
    pub context: u64,
    pub texture: u32,
}

/// The textures of the named cursors.
#[derive(Debug)]
pub struct CursorTextureCache {
    /// The buffers of all images of a cursor.
    pub frames: KeyedCache<Vec<u64>>,
    /// Alpha coverage of an image.
    pub coverage: KeyedCache<ContextTexture>,
    /// Signed distances of an image, negative inside.
    pub sdf: KeyedCache<ContextTexture>,
}

/// The texture that a renderer has imported; one of another renderer does not
/// count.
pub open spec fn imported(cache: Map<Key, ContextTexture>, key: Key, context: u64) -> Option<u32> {
    if cache.contains_key(key) && cache[key].context == context {
        Some(cache[key].texture)
    } else {
        None
    }
}

fn find_imported(
    cache: &KeyedCache<ContextTexture>,
    context: u64,
    icon: &CursorIcon,
    scale: i32,
    idx: usize,
) -> (texture: Option<u32>)
    requires
        cache.wf(),
    ensures
        texture == imported(cache@, (icon.name@, scale, idx), context),
{
    match cache.get(&icon.name, scale, idx) {
        Some(entry) => if entry.context == context {
            Some(entry.texture)
        } else {
            None
        },
        None => None,
    }
}

impl CursorTextureCache {
    pub open spec fn wf(&self) -> bool {
        self.frames.wf() && self.coverage.wf() && self.sdf.wf()
    }

    /// Nothing has been imported.
    pub open spec fn is_empty(&self) -> bool {
        &&& self.frames@ == Map::<Key, Vec<u64>>::empty()
        &&& self.coverage@ == Map::<Key, ContextTexture>::empty()
        &&& self.sdf@ == Map::<Key, ContextTexture>::empty()
    }

    pub fn new() -> (cache: Self)
        ensures
            cache.wf(),
            cache.is_empty(),
    {
        CursorTextureCache {
            frames: KeyedCache::new(),
            coverage: KeyedCache::new(),
            sdf: KeyedCache::new(),
        }
    }

    /// Forget all textures.
    pub fn clear(&mut self)
        ensures
            final(self).wf(),
            final(self).is_empty(),
    {
        self.frames.clear();
        self.coverage.clear();
        self.sdf.clear();
    }

    /// The buffer of an image, if the images of the cursor have been imported.
    pub fn get(&self, icon: &CursorIcon, scale: i32, idx: usize) -> (buffer: Option<u64>)
        requires
            self.wf(),
            self.frames@.contains_key((icon.name@, scale, 0)) ==> idx < self.frames@[(
                icon.name@,
                scale,
                0,
            )]@.len(),
        ensures
            buffer == (if self.frames@.contains_key((icon.name@, scale, 0)) {
                Some(self.frames@[(icon.name@, scale, 0)]@[idx as int])
            } else {
                None
            }),
    {
        match self.frames.get(&icon.name, scale, 0) {
            Some(buffers) => Some(buffers[idx]),
            None => None,
        }
    }

    /// The number of images of the cursor that have been imported.
    pub fn imported_frames(&self, icon: &CursorIcon, scale: i32) -> (count: Option<usize>)
        requires
            self.wf(),
        ensures
            (match count {
                Some(n) => self.frames@.contains_key((icon.name@, scale, 0)) && n
                    == self.frames@[(icon.name@, scale, 0)]@.len(),
                None => !self.frames@.contains_key((icon.name@, scale, 0)),
            }),
    {
        match self.frames.get(&icon.name, scale, 0) {
            Some(buffers) => Some(buffers.len()),
            None => None,
        }
    }

    /// Keep the buffers of all images of a cursor.
    pub fn store(&mut self, icon: &CursorIcon, scale: i32, buffers: Vec<u64>)
        requires
            old(self).wf(),
        ensures
            final(self).wf(),
            *final(self) == (CursorTextureCache { frames: final(self).frames, ..*old(self) }),
            final(self).frames@ == old(self).frames@.insert((icon.name@, scale, 0), buffers),
    {
        self.frames.insert(&icon.name, scale, 0, buffers);
    }

    /// The alpha coverage of an image, if this renderer has imported it.
    pub fn get_coverage(&self, context: u64, icon: &CursorIcon, scale: i32, idx: usize) -> (texture:
        Option<u32>)
        requires
            self.wf(),
        ensures
            texture == imported(self.coverage@, (icon.name@, scale, idx), context),
    {
        find_imported(&self.coverage, context, icon, scale, idx)
    }

    /// Keep the alpha coverage of an image, in place of that of any other renderer.
    pub fn store_coverage(
        &mut self,
        context: u64,
        icon: &CursorIcon,
        scale: i32,
        idx: usize,
        texture: u32,
    )
        requires
            old(self).wf(),
        ensures
            final(self).wf(),
            *final(self) == (CursorTextureCache { coverage: final(self).coverage, ..*old(self) }),
            final(self).coverage@ == old(self).coverage@.insert(
                (icon.name@, scale, idx),
                ContextTexture { context, texture },
            ),
    {
        self.coverage.insert(&icon.name, scale, idx, ContextTexture { context, texture });
    }

    /// The signed distances of an image, if this renderer has imported them.
    pub fn get_sdf(&self, context: u64, icon: &CursorIcon, scale: i32, idx: usize) -> (texture:
        Option<u32>)
        requires
            self.wf(),
        ensures
            texture == imported(self.sdf@, (icon.name@, scale, idx), context),
    {
        find_imported(&self.sdf, context, icon, scale, idx)
    }

    /// Keep the signed distances of an image, in place of those of any other
    /// renderer.
    pub fn store_sdf(
        &mut self,
        context: u64,
        icon: &CursorIcon,
        scale: i32,
        idx: usize,
        texture: u32,
    )
        requires
            old(self).wf(),
        ensures
            final(self).wf(),
            *final(self) == (CursorTextureCache { sdf: final(self).sdf, ..*old(self) }),
            final(self).sdf@ == old(self).sdf@.insert(
                (icon.name@, scale, idx),
                ContextTexture { context, texture },
            ),
    {
        self.sdf.insert(&icon.name, scale, idx, ContextTexture { context, texture });
    }
}

/// A texture is imported once by each renderer in turn: what was stored is found by
/// the same renderer, not by another, and says nothing of other images.
pub proof fn law_textures_belong_to_a_renderer(
    cache: Map<Key, ContextTexture>,
    key: Key,
    stored: ContextTexture,
    other: Key,
    context: u64,
)
    ensures
        imported(cache.insert(key, stored), key, stored.context) == Some(stored.texture),
        context != stored.context ==> imported(cache.insert(key, stored), key, context) is None,
        other != key ==> imported(cache.insert(key, stored), other, context) == imported(
            cache,
            other,
            context,
        ),
{
}

/// The names of an icon are tried one after the other: its own first, then its
/// alternatives in their order, each once, until a cursor was found.
pub proof fn law_alternatives_follow_the_name(load: CursorLoad, k: int)
    requires
        load.wf(),
        load.found is None,
    ensures
        load.tried == 0 ==> load.wanted() == Some(load.icon.name@),
        0 <= k < load.icon.alt_names@.len() && load.tried == k + 1 ==> load.wanted() == Some(
            load.icon.alt_names@[k]@,
        ),
        load.tried == load.icon.alt_names@.len() + 1 ==> load.wanted() is None,
{
}

/// What a load adds to the cache: the cursor that was found; without one the fallback
/// for the default icon, a still image of 64 by 64 pixels with its hotspot at one and
/// one, and for any other icon that it is missing.
pub proof fn law_what_a_load_comes_to(load: CursorLoad, fallback: Seq<u8>, result: Option<XCursor>)
    requires
        is_load_result(load, fallback, result),
    ensures
        load.found is Some ==> result == load.found,
        load.found is None && load.icon.name@ != DEFAULT_NAME@ ==> result is None,
        load.found is None && load.icon.name@ == DEFAULT_NAME@ ==> (result matches Some(c) && {
            &&& c.animation_duration == 0
            &&& c.images@.len() == 1
            &&& c.images@[0].width == 64 && c.images@[0].height == 64
            &&& c.images@[0].xhot == 1 && c.images@[0].yhot == 1
            &&& c.images@[0].delay == 0
            &&& c.images@[0].pixels_rgba@ == fallback
        }),
{
    if load.found is None && load.icon.name@ == DEFAULT_NAME@ {
        let c = result.unwrap();
        assert(views(c.images@).len() == 1);
        assert(views(c.images@)[0] == c.images@[0]@);
    }
}

/// A named cursor is shown as itself, unless it is known to be missing; then the default
/// cursor is shown in its place, under its own names.
pub proof fn law_missing_cursors_are_replaced(
    manager: CursorManager,
    icon: CursorIcon,
    scale: i32,
    shown: CursorIcon,
)
    requires
        manager.shown_as(icon, scale, shown),
    ensures
        ({
            let key = (icon.name@, scale, 0usize);
            let missing = manager.cache@.contains_key(key) && manager.cache@[key] is None;
            &&& missing ==> {
                &&& shown.name@ == DEFAULT_NAME@
                &&& icon_alt_names(DEFAULT_NAME@) == Some(texts(shown.alt_names@))
                &&& manager.shown_name(icon.name@, scale) == DEFAULT_NAME@
            }
            &&& !missing ==> {
                &&& shown.name@ == icon.name@
                &&& texts(shown.alt_names@) == texts(icon.alt_names@)
                &&& manager.shown_name(icon.name@, scale) == icon.name@
            }
        }),
{
}

/// What is known of a named cursor is what the cache holds under its name and scale.
pub proof fn law_known_is_what_the_cache_holds(
    manager: CursorManager,
    name: Seq<char>,
    scale: i32,
)
    ensures
        manager.loaded(name, scale) == (if manager.cache@.contains_key((name, scale, 0usize)) {
            Some(manager.cache@[(name, scale, 0usize)])
        } else {
            None
        }),
{
}

} // verus!
