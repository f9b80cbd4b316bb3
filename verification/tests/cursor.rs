use niri_effects::cursor::{
    CursorImageStatus, CursorManager, CursorTextureCache, Lookup, RenderCursor,
};
use niri_effects::icon::CursorIcon;

fn icon(name: &str) -> CursorIcon {
    CursorIcon::from_name(name).unwrap()
}

fn word(bytes: &mut Vec<u8>, value: u32) {
    bytes.extend_from_slice(&value.to_le_bytes());
}

/// A cursor file with a number of images of one pixel.
fn file(count: u32) -> Vec<u8> {
    let mut bytes = b"Xcur".to_vec();
    word(&mut bytes, 16);
    word(&mut bytes, 0x1_0000);
    word(&mut bytes, count);
    for i in 0..count {
        word(&mut bytes, 0xfffd_0002);
        word(&mut bytes, 24);
        word(&mut bytes, 16 + 12 * count + 40 * i);
    }
    for _ in 0..count {
        for value in [36, 0xfffd_0002, 24, 1, 1, 1, 0, 0, 50] {
            word(&mut bytes, value);
        }
        bytes.extend_from_slice(&[1, 2, 3, 4]);
    }
    bytes
}

/// Load an icon from a theme that has the given files.
fn load(manager: &mut CursorManager, name: &str, scale: i32, theme: &[(&str, Vec<u8>)]) -> Vec<String> {
    let mut load = manager.begin_load(&icon(name), scale);
    let mut asked = Vec::new();
    while let Some(wanted) = load.next_name().cloned() {
        let content = theme.iter().find(|(n, _)| *n == wanted).map(|(_, c)| c.clone());
        asked.push(wanted);
        load.supply(content);
    }
    manager.finish_load(load);
    asked
}

fn manager() -> CursorManager {
    CursorManager::new(24, vec![9; 64 * 64 * 4])
}

#[test]
fn icons_have_their_names() {
    assert!(CursorIcon::from_name("no-such-icon").is_none());
    let text = icon("text");
    assert_eq!(text.name, "text");
    assert_eq!(text.alt_names, vec!["xterm", "ibeam"]);
    assert!(!text.is_default());
    let default = CursorIcon::default_icon();
    assert_eq!(default.name, "default");
    assert_eq!(default.alt_names, vec!["left_ptr", "arrow", "top_left_arrow", "left_arrow"]);
    assert!(default.is_default());
    let copy = text.clone();
    assert_eq!((copy.name, copy.alt_names), (text.name, text.alt_names));
}

#[test]
fn a_new_manager_shows_the_default_cursor() {
    let manager = manager();
    assert!(matches!(manager.cursor_image(), CursorImageStatus::Named(i) if i.is_default()));
    assert!(matches!(manager.get_cursor_with_name(&icon("text"), 1), Lookup::Load));
    assert_eq!(manager.get_render_cursor(1, (0, 0)).unwrap_err().name, "default");
    assert_eq!(manager.is_current_cursor_animated(1).unwrap_err().name, "default");
    assert!(manager.get_default_cursor(1).is_none());
}

#[test]
fn names_are_tried_until_one_makes_a_cursor() {
    let mut manager = manager();
    let theme = vec![("text", b"broken".to_vec()), ("ibeam", file(1))];
    assert_eq!(load(&mut manager, "text", 2, &theme), vec!["text", "xterm", "ibeam"]);
    match manager.get_cursor_with_name(&icon("text"), 2) {
        Lookup::Found(cursor) => assert_eq!(cursor.frames().len(), 1),
        _ => panic!("not found"),
    }
    // Another scale is another cursor.
    assert!(matches!(manager.get_cursor_with_name(&icon("text"), 1), Lookup::Load));

    let theme = vec![("text", file(2)), ("xterm", file(1))];
    assert_eq!(load(&mut manager, "text", 1, &theme), vec!["text"]);
    match manager.get_cursor_with_name(&icon("text"), 1) {
        Lookup::Found(cursor) => assert_eq!(cursor.frames().len(), 2),
        _ => panic!("not found"),
    }
}

#[test]
fn the_wanted_size_grows_with_the_scale() {
    let load = manager().begin_load(&icon("text"), 3);
    assert_eq!(load.size, 72);
    assert_eq!(load.scale, 3);
}

#[test]
fn files_without_images_are_passed_over() {
    let mut manager = manager();
    let theme = vec![("text", file(0)), ("xterm", file(1))];
    assert_eq!(load(&mut manager, "text", 1, &theme), vec!["text", "xterm"]);
    assert!(matches!(manager.get_cursor_with_name(&icon("text"), 1), Lookup::Found(_)));

    let theme: Vec<(&str, Vec<u8>)> =
        ["default", "left_ptr", "arrow", "top_left_arrow", "left_arrow"]
            .iter()
            .map(|name| (*name, file(0)))
            .collect();
    assert_eq!(load(&mut manager, "default", 1, &theme).len(), 5);
    let cursor = manager.get_default_cursor(1).unwrap();
    assert_eq!(cursor.frames().len(), 1);
    assert_eq!(cursor.frames()[0].pixels_rgba, vec![9; 64 * 64 * 4]);
}

#[test]
fn icons_to_load_come_with_their_alternative_names() {
    let mut manager = manager();
    let default_names = vec!["left_ptr", "arrow", "top_left_arrow", "left_arrow"];
    assert_eq!(manager.get_render_cursor(1, (0, 0)).unwrap_err().alt_names, default_names);
    // An icon that cannot be found by its name is served all the same.
    let ask = CursorIcon { name: "dnd-ask".to_owned(), alt_names: vec!["copy".to_owned()] };
    manager.set_cursor_image(CursorImageStatus::Named(ask.clone()));
    let wanted = manager.get_render_cursor(1, (0, 0)).unwrap_err();
    assert_eq!((wanted.name.as_str(), wanted.alt_names.len()), ("dnd-ask", 1));
    assert_eq!(manager.is_current_cursor_animated(1).unwrap_err().alt_names, vec!["copy"]);
    let mut load = manager.begin_load(&ask, 1);
    load.supply(None);
    assert_eq!(load.next_name().unwrap(), "copy");
    load.supply(None);
    assert!(load.next_name().is_none());
    manager.finish_load(load);
    assert_eq!(manager.is_current_cursor_animated(1).unwrap_err().alt_names, default_names);
}

#[test]
fn the_default_cursor_has_a_fallback() {
    let mut manager = manager();
    assert_eq!(
        load(&mut manager, "default", 1, &[]),
        vec!["default", "left_ptr", "arrow", "top_left_arrow", "left_arrow"]
    );
    let cursor = manager.get_default_cursor(1).unwrap();
    assert_eq!(cursor.frames()[0].pixels_rgba, vec![9; 64 * 64 * 4]);
    assert_eq!(cursor.frames()[0].width, 64);
    assert_eq!(manager.is_current_cursor_animated(1).unwrap(), false);
}

#[test]
fn a_missing_cursor_is_shown_as_the_default_one() {
    let mut manager = manager();
    manager.set_cursor_image(CursorImageStatus::Named(icon("text")));
    assert_eq!(manager.get_render_cursor(1, (0, 0)).unwrap_err().name, "text");
    load(&mut manager, "text", 1, &[]);
    assert!(matches!(manager.get_cursor_with_name(&icon("text"), 1), Lookup::Missing));
    assert_eq!(manager.get_render_cursor(1, (0, 0)).unwrap_err().name, "default");
    load(&mut manager, "default", 1, &[("left_ptr", file(3))]);
    match manager.get_render_cursor(1, (0, 0)).unwrap() {
        RenderCursor::Named { icon, scale, cursor } => {
            assert_eq!(icon.name, "default");
            assert_eq!(scale, 1);
            assert_eq!(cursor.frames().len(), 3);
        }
        _ => panic!("not a named cursor"),
    }
    assert_eq!(manager.is_current_cursor_animated(1).unwrap(), true);

    load(&mut manager, "text", 1, &[("text", file(1))]);
    match manager.get_render_cursor(1, (0, 0)).unwrap() {
        RenderCursor::Named { icon, cursor, .. } => {
            assert_eq!(icon.name, "text");
            assert_eq!(cursor.frames().len(), 1);
        }
        _ => panic!("not a named cursor"),
    }
    assert_eq!(manager.is_current_cursor_animated(1).unwrap(), false);
}

#[test]
fn hidden_cursors_and_surfaces_need_no_loading() {
    let mut manager = manager();
    manager.set_cursor_image(CursorImageStatus::Hidden);
    assert!(matches!(manager.get_render_cursor(1, (3, 4)), Ok(RenderCursor::Hidden)));
    assert_eq!(manager.is_current_cursor_animated(1).unwrap(), false);
    manager.set_cursor_image(CursorImageStatus::Surface(77));
    match manager.get_render_cursor(1, (3, 4)).unwrap() {
        RenderCursor::Surface { hotspot, surface } => {
            assert_eq!((hotspot, surface), ((3, 4), 77));
        }
        _ => panic!("not a surface"),
    }
    assert_eq!(manager.is_current_cursor_animated(1).unwrap(), false);
}

#[test]
fn a_dead_surface_gives_way_to_the_default_cursor() {
    let mut manager = manager();
    manager.set_cursor_image(CursorImageStatus::Surface(77));
    manager.check_cursor_image_surface_alive(true);
    assert!(matches!(manager.cursor_image(), CursorImageStatus::Surface(77)));
    manager.check_cursor_image_surface_alive(false);
    assert!(matches!(manager.cursor_image(), CursorImageStatus::Named(i) if i.is_default()));
    manager.set_cursor_image(CursorImageStatus::Hidden);
    manager.check_cursor_image_surface_alive(false);
    assert!(matches!(manager.cursor_image(), CursorImageStatus::Hidden));
}

#[test]
fn reloading_forgets_all_cursors() {
    let mut manager = manager();
    load(&mut manager, "text", 1, &[("text", file(1))]);
    manager.set_cursor_image(CursorImageStatus::Hidden);
    manager.reload(48);
    assert_eq!(manager.size, 48);
    assert!(matches!(manager.get_cursor_with_name(&icon("text"), 1), Lookup::Load));
    assert!(matches!(manager.cursor_image(), CursorImageStatus::Hidden));
    assert_eq!(manager.begin_load(&icon("text"), 1).size, 48);
}

#[test]
fn buffers_are_kept_by_icon_and_scale() {
    let mut cache = CursorTextureCache::new();
    assert_eq!(cache.get(&icon("text"), 1, 5), None);
    assert_eq!(cache.imported_frames(&icon("text"), 1), None);
    cache.store(&icon("text"), 1, vec![10, 11]);
    assert_eq!(cache.imported_frames(&icon("text"), 1), Some(2));
    assert_eq!(cache.get(&icon("text"), 1, 1), Some(11));
    assert_eq!(cache.get(&icon("text"), 2, 1), None);
    assert_eq!(cache.get(&icon("help"), 1, 1), None);
    cache.store(&icon("text"), 1, vec![12]);
    assert_eq!(cache.get(&icon("text"), 1, 0), Some(12));
    cache.clear();
    assert_eq!(cache.get(&icon("text"), 1, 0), None);
}

#[test]
fn textures_are_imported_anew_for_another_renderer() {
    let mut cache = CursorTextureCache::new();
    let text = icon("text");
    assert_eq!(cache.get_coverage(1, &text, 1, 0), None);
    cache.store_coverage(1, &text, 1, 0, 30);
    assert_eq!(cache.get_coverage(1, &text, 1, 0), Some(30));
    assert_eq!(cache.get_coverage(2, &text, 1, 0), None);
    assert_eq!(cache.get_coverage(1, &text, 1, 1), None);
    assert_eq!(cache.get_sdf(1, &text, 1, 0), None);
    cache.store_coverage(2, &text, 1, 0, 31);
    assert_eq!(cache.get_coverage(2, &text, 1, 0), Some(31));
    assert_eq!(cache.get_coverage(1, &text, 1, 0), None);
    cache.store_sdf(2, &text, 1, 0, 40);
    assert_eq!(cache.get_sdf(2, &text, 1, 0), Some(40));
    assert_eq!(cache.get_sdf(1, &text, 1, 0), None);
    cache.clear();
    assert_eq!(cache.get_coverage(2, &text, 1, 0), None);
    assert_eq!(cache.get_sdf(2, &text, 1, 0), None);
}
