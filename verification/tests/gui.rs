use wishy::console::{Console, ConsoleWriter, DEFAULT_COLOR};
use wishy::drivers::fb::{Framebuffer, get_font_bitmap};
use wishy::gpu::drm::{
    DRM_IOCTL_MODE_CREATE_DUMB, DRM_IOCTL_MODE_MAP_DUMB, DrmState, create_dumb_buffer, create_framebuffer,
    ioctl_handler, map_dumb_buffer, open_device,
};
use wishy::gpu::egl::{EglState, create_context, create_window_surface, get_display, initialize};
use wishy::gpu::virtio_gpu::{GpuState, attach_backing, create_resource_2d, find_resource, resource_backing};
use wishy::gui::animation::{Animation, AnimationType, Clock, get_ticks};
use wishy::gui::compositor::{handle_pointer, init as compositor_init, render, update, window_alpha};
use wishy::gui::input::{InputState, MouseDecoder, handle_keyboard_data, handle_mouse_data, is_alt_pressed, is_key_pressed, is_shift_pressed};
use wishy::gui::renderer::render_window;
use wishy::gui::surface::{SURFACE_FILL, Surface};
use wishy::gui::theme::Theme;
use wishy::gui::tiles::TilingManager;

#[test]
fn framebuffer_drawing() {
    let mut fb = Framebuffer::new(16, 8);
    fb.put_pixel(3, 2, 0xff);
    assert_eq!(fb.back_buffer[2 * 16 + 3], 0xff);
    fb.put_pixel(16, 0, 0xee);
    assert!(fb.back_buffer.iter().all(|&p| p == 0 || p == 0xff));
    fb.fill_rect(14, 6, 5, 5, 7);
    assert_eq!(fb.back_buffer[7 * 16 + 15], 7);
    assert_eq!(fb.back_buffer[5 * 16 + 15], 0);
    assert_eq!(fb.buffer[7 * 16 + 15], 0);
    fb.swap();
    assert_eq!(fb.buffer[7 * 16 + 15], 7);
    fb.clear(1);
    assert!(fb.back_buffer.iter().all(|&p| p == 1));
    fb.blit(1, 1, 2, 2, &[5, 6, 7, 8]);
    assert_eq!(fb.back_buffer[16 + 1], 5);
    assert_eq!(fb.back_buffer[2 * 16 + 2], 8);
    assert_eq!(get_font_bitmap('A'), [0u8; 16]);
    assert_eq!((fb.width(), fb.height()), (16, 8));
}

#[test]
fn console_writes_and_scrolls() {
    let mut c = ConsoleWriter::new();
    Console::init(&mut c);
    Console::print(&mut c, "hi");
    assert_eq!(c.cells[0], ((DEFAULT_COLOR as u16) << 8) | b'h' as u16);
    assert_eq!((c.row, c.col), (0, 2));
    Console::println(&mut c, "!");
    assert_eq!((c.row, c.col), (1, 0));
    for _ in 0..30 {
        c.newline();
    }
    assert_eq!(c.row, 24);
    assert_eq!(c.cells[0], ((DEFAULT_COLOR as u16) << 8) | 0x20);
    Console::set_color(&mut c, 0x4, 0x1);
    assert_eq!(c.color, 0x14);
}

#[test]
fn surfaces() {
    let mut s = Surface::new(10, 20, 4, 3);
    assert!(s.pixels.iter().all(|&p| p == SURFACE_FILL));
    s.set_title("Terminal");
    assert_eq!(&s.title[..s.title_len], b"Terminal");
    s.put_pixel(1, 1, 9);
    assert_eq!(s.pixels[5], 9);
    s.fill_rect(2, 0, 10, 10, 3);
    assert_eq!(s.pixels[3], 3);
    assert_eq!(s.pixels[0], SURFACE_FILL);
    assert!(s.contains_point(10, 20));
    assert!(s.contains_point(13, 22));
    assert!(!s.contains_point(14, 22));
    s.clear(0);
    assert!(s.pixels.iter().all(|&p| p == 0));
}

#[test]
fn tiling() {
    let mut t = TilingManager::new(1024, 768);
    t.add_window(Surface::new(0, 0, 10, 10));
    assert_eq!((t.windows[0].x, t.windows[0].y, t.windows[0].width, t.windows[0].height), (8, 38, 1008, 722));
    t.add_window(Surface::new(0, 0, 10, 10));
    assert_eq!((t.windows[0].x, t.windows[0].width), (8, 496));
    assert_eq!((t.windows[1].x, t.windows[1].y, t.windows[1].width), (520, 38, 496));
    assert_eq!(t.focused_index, 1);
    t.focus_next();
    assert_eq!(t.focused_index, 0);
    assert!(t.windows[0].focused && !t.windows[1].focused);
    assert_eq!(t.find_window_at(9, 40), Some(0));
    assert_eq!(t.find_window_at(0, 0), None);
    t.remove_window(0);
    assert_eq!(t.windows.len(), 1);
    assert_eq!(t.windows[0].width, 1008);
    // adding a window and removing it again restores the layout
    let before = (t.windows[0].x, t.windows[0].y, t.windows[0].width, t.windows[0].height);
    t.add_window(Surface::new(0, 0, 10, 10));
    assert_eq!(t.windows[0].width, 496);
    t.remove_window(1);
    assert_eq!((t.windows[0].x, t.windows[0].y, t.windows[0].width, t.windows[0].height), before);
}

#[test]
fn keyboard_and_mouse() {
    let mut input = InputState::new();
    let mut mouse = MouseDecoder::new();
    input.mouse_x = 100;
    input.mouse_y = 100;
    handle_keyboard_data(&mut input, 0x2A);
    assert!(is_shift_pressed(&input));
    handle_keyboard_data(&mut input, 0x38);
    assert!(is_alt_pressed(&input));
    handle_keyboard_data(&mut input, 0x10);
    assert!(is_key_pressed(&input, 0x10));
    handle_keyboard_data(&mut input, 0x90);
    assert!(!is_key_pressed(&input, 0x10));
    handle_keyboard_data(&mut input, 0xAA);
    assert!(!is_shift_pressed(&input));
    // releasing shift leaves alt as it was
    assert!(is_alt_pressed(&input));
    let (x0, y0) = (input.mouse_x, input.mouse_y);
    handle_mouse_data(&mut input, &mut mouse, 0x09);
    handle_mouse_data(&mut input, &mut mouse, 5);
    handle_mouse_data(&mut input, &mut mouse, 3);
    assert_eq!(input.mouse_buttons, 1);
    assert_eq!((input.mouse_x, input.mouse_y), (x0 + 5, y0 - 3));
    // x moves left by 0x100 - 0xF0 = 16 with the sign bit set
    handle_mouse_data(&mut input, &mut mouse, 0x18);
    handle_mouse_data(&mut input, &mut mouse, 0xF0);
    handle_mouse_data(&mut input, &mut mouse, 0);
    assert_eq!(input.mouse_x, x0 + 5 - 16);
}

#[test]
fn compositor_starts_with_two_windows_and_drags() {
    let mut clock = Clock::new();
    let mut comp = compositor_init(&mut clock);
    assert_eq!(clock.ticks, 2);
    assert_eq!(comp.tiling.windows.len(), 2);
    assert_eq!(&comp.tiling.windows[0].title[..comp.tiling.windows[0].title_len], b"Terminal");
    let (wx, wy) = (comp.tiling.windows[0].x, comp.tiling.windows[0].y);
    handle_pointer(&mut comp, wx + 10, wy + 10, 1);
    assert_eq!(comp.tiling.focused_index, 0);
    assert_eq!(comp.dragging, Some((0, 10, 10)));
    handle_pointer(&mut comp, wx + 30, wy + 15, 1);
    assert_eq!((comp.tiling.windows[0].x, comp.tiling.windows[0].y), (wx + 20, wy + 5));
    handle_pointer(&mut comp, wx + 30, wy + 15, 0);
    assert_eq!(comp.dragging, None);
    assert_eq!(comp.last_mouse_buttons, 0);
}

#[test]
fn compositor_shortcuts_and_render() {
    let mut clock = Clock::new();
    let mut comp = compositor_init(&mut clock);
    let mut input = InputState::new();
    handle_keyboard_data(&mut input, 0x38);
    handle_keyboard_data(&mut input, 0x1C);
    update(&mut comp, &input, &mut clock);
    assert_eq!(comp.tiling.windows.len(), 3);
    // retiling resizes windows but not their pixel buffers: give each a
    // buffer of its new size before drawing
    for w in comp.tiling.windows.iter_mut() {
        w.pixels = vec![0x0011_2233; w.width * w.height];
    }
    let mut fb = Framebuffer::new(1024, 768);
    render(&comp, &mut fb, &input, &[(0, 255), (1, 128)]);
    assert_ne!(fb.buffer, vec![0u32; 1024 * 768]);
    assert_eq!(window_alpha(&[(0, 10), (2, 20)], 2), 20);
    assert_eq!(window_alpha(&[(0, 10)], 1), 255);
}

#[test]
fn animations_and_clock() {
    let mut clock = Clock::new();
    assert_eq!(get_ticks(&mut clock), 1);
    let a = Animation::new(AnimationType::FadeIn, 30, &mut clock);
    assert_eq!((a.start_time, a.duration), (2, 30));
    assert_eq!(a.elapsed(&mut clock), 1);
    assert_eq!(a.elapsed(&mut clock), 2);
}

#[test]
fn virtio_gpu_resources() {
    let mut g = GpuState::new();
    let id = create_resource_2d(&mut g, 640, 480, 1);
    assert_eq!(id, 1);
    assert_eq!(find_resource(&g, 1), Some(1));
    assert_eq!(find_resource(&g, 9), None);
    attach_backing(&mut g, 1, 0x1000, 640 * 480 * 4);
    assert_eq!(resource_backing(&g, 1), Some(0x1000));
    assert_eq!(resource_backing(&g, 7), None);
}

#[test]
fn drm_buffers_and_ioctls() {
    let mut d = DrmState::new();
    assert_eq!(open_device(&mut d), 100);
    assert_eq!(open_device(&mut d), 101);
    assert_eq!(create_dumb_buffer(&mut d, 100, 640, 480, 32), (1, 640 * 480 * 4));
    assert_eq!(map_dumb_buffer(100, 2), 0x6020_0000);
    assert_eq!(create_framebuffer(&mut d, 100, 640, 480, 2560, 32, 1), 1);
    let mut arg = [0u8; 32];
    arg[0..4].copy_from_slice(&480u32.to_le_bytes());
    arg[4..8].copy_from_slice(&640u32.to_le_bytes());
    arg[8..12].copy_from_slice(&32u32.to_le_bytes());
    assert_eq!(ioctl_handler(&mut d, 100, DRM_IOCTL_MODE_CREATE_DUMB, &mut arg), 0);
    assert_eq!(u32::from_le_bytes(arg[16..20].try_into().unwrap()), 2);
    assert_eq!(u32::from_le_bytes(arg[20..24].try_into().unwrap()), 2560);
    assert_eq!(u64::from_le_bytes(arg[24..32].try_into().unwrap()), 2560 * 480);
    let mut m = [0u8; 16];
    m[0] = 3;
    assert_eq!(ioctl_handler(&mut d, 100, DRM_IOCTL_MODE_MAP_DUMB, &mut m), 0);
    assert_eq!(u64::from_le_bytes(m[8..16].try_into().unwrap()), 0x6030_0000);
    assert_eq!(ioctl_handler(&mut d, 100, 0x1234, &mut m), -22);
}

#[test]
fn egl_objects() {
    let mut e = EglState::new();
    assert_eq!(get_display(&mut e, 0), 1);
    assert_eq!(initialize(1), (true, 1, 5));
    assert_eq!(create_context(&mut e, 1, 1, 0), 1);
    assert_eq!(create_window_surface(&mut e, 1, 1, 0), 1);
    assert_eq!(e.surfaces[0].width, 1024);
}

#[test]
fn compositor_close_and_cycle_shortcuts() {
    let mut clock = Clock::new();
    let mut comp = compositor_init(&mut clock);
    let mut input = InputState::new();
    input.mouse_x = 1000;
    input.mouse_y = 5;
    // Alt+Q closes the focused window (the second); the other fills the screen
    handle_keyboard_data(&mut input, 0x38);
    handle_keyboard_data(&mut input, 0x10);
    update(&mut comp, &input, &mut clock);
    assert_eq!(comp.tiling.windows.len(), 1);
    assert_eq!(&comp.tiling.windows[0].title[..comp.tiling.windows[0].title_len], b"Terminal");
    assert_eq!((comp.tiling.windows[0].x, comp.tiling.windows[0].width), (8, 1008));
    assert_eq!(comp.tiling.focused_index, 0);
    // Alt+Enter opens "New Window" on top, focused, with its fade
    handle_keyboard_data(&mut input, 0x90);
    handle_keyboard_data(&mut input, 0x1C);
    update(&mut comp, &input, &mut clock);
    assert_eq!(comp.tiling.windows.len(), 2);
    assert_eq!(&comp.tiling.windows[1].title[..comp.tiling.windows[1].title_len], b"New Window");
    assert_eq!(comp.tiling.windows[1].pixels.len(), 500 * 400);
    assert_eq!(comp.tiling.focused_index, 1);
    let (idx, anim) = &comp.animations[comp.animations.len() - 1];
    assert_eq!((*idx, anim.start_time, anim.duration), (1, clock.ticks, 20));
    // Alt+Tab moves the focus on, wrapping around
    handle_keyboard_data(&mut input, 0x9C);
    handle_keyboard_data(&mut input, 0x0F);
    update(&mut comp, &input, &mut clock);
    assert_eq!(comp.tiling.focused_index, 0);
    assert!(comp.tiling.windows[0].focused);
    assert!(!comp.tiling.windows[1].focused);
}

#[test]
fn window_border_is_drawn_on_top_with_rounded_corners() {
    let theme = Theme::default();
    let mut fb = Framebuffer::new(1024, 768);
    let mut w = Surface::new(100, 100, 100, 80);
    w.focused = true;
    render_window(&mut fb, &w, 255);
    let at = |x: usize, y: usize| fb.back_buffer[y * 1024 + x];
    // the border: left and right edges at mid-height, bottom edge
    assert_eq!(at(100, 140), theme.active_border);
    assert_eq!(at(101, 140), theme.active_border);
    assert_eq!(at(199, 140), theme.active_border);
    assert_eq!(at(150, 179), theme.active_border);
    // the top edge crosses the title bar
    assert_eq!(at(150, 72), theme.active_border);
    // inside the border: the contents and the title bar
    assert_eq!(at(102, 140), SURFACE_FILL);
    assert_eq!(at(150, 80), theme.titlebar_bg);
    // the rounded top-left corner: the outer corner pixel is not border,
    // the arc is
    assert_eq!(at(100, 72), theme.titlebar_bg);
    assert_eq!(at(100, 77), theme.active_border);
    assert_eq!(at(105, 72), theme.active_border);
    assert_eq!(at(102, 74), theme.active_border);
    // the same arc mirrored at the bottom-right corner
    assert_eq!(at(199, 174), theme.active_border);
    assert_ne!(at(199, 179), theme.active_border);
    // an unfocused window gets the other color
    w.focused = false;
    render_window(&mut fb, &w, 255);
    assert_eq!(fb.back_buffer[140 * 1024 + 100], theme.inactive_border);
}

#[test]
fn clicking_a_close_button_closes_the_window() {
    let mut clock = Clock::new();
    let mut comp = compositor_init(&mut clock);
    assert_eq!(comp.tiling.windows.len(), 2);
    let (x, y, w) = (comp.tiling.windows[1].x, comp.tiling.windows[1].y, comp.tiling.windows[1].width as i32);
    assert_eq!((x, y, w), (520, 38, 496));
    let title = comp.tiling.windows[0].title;
    // a press in the title bar outside the close button changes nothing
    handle_pointer(&mut comp, x + 100, y - 10, 1);
    assert_eq!(comp.tiling.windows.len(), 2);
    handle_pointer(&mut comp, x + 100, y - 10, 0);
    // a press on window 1's close button closes it; window 0 fills the screen
    handle_pointer(&mut comp, x + w - 20, y - 15, 1);
    assert_eq!(comp.tiling.windows.len(), 1);
    assert_eq!(comp.tiling.windows[0].title, title);
    assert_eq!(comp.tiling.windows[0].width, 1008);
    assert_eq!(comp.dragging, None);
    // holding the button does not close another window
    handle_pointer(&mut comp, 1008 - 20, 38 - 15, 1);
    assert_eq!(comp.tiling.windows.len(), 1);
}

#[test]
fn desktop_renders_right_after_init() {
    let mut clock = Clock::new();
    let comp = compositor_init(&mut clock);
    // the demo windows keep their smaller buffers after tiling
    assert!(comp.tiling.windows[0].pixels.len() < comp.tiling.windows[0].width * comp.tiling.windows[0].height);
    let input = InputState::new();
    let mut fb = Framebuffer::new(1024, 768);
    render(&comp, &mut fb, &input, &[]);
    let w = &comp.tiling.windows[0];
    // a content pixel past the end of the buffer shows the surface fill
    let (x, y) = ((w.x + 10) as usize, (w.y as usize) + w.height - 10);
    assert_eq!(fb.back_buffer[y * 1024 + x], SURFACE_FILL);
}

#[test]
fn pointer_stays_on_screen() {
    let mut input = InputState::new();
    let mut mouse = MouseDecoder::new();
    // large moves left/down and right/up are clamped to the screen
    for _ in 0..10 {
        for b in [0x19u8, 0x80, 0x7f] {
            handle_mouse_data(&mut input, &mut mouse, b);
        }
        assert!((0..=1023).contains(&input.mouse_x) && (0..=767).contains(&input.mouse_y));
        assert!(input.mouse_buttons <= 7);
    }
    for _ in 0..10 {
        for b in [0xffu8, 0x7f, 0x80] {
            handle_mouse_data(&mut input, &mut mouse, b);
        }
        assert!((0..=1023).contains(&input.mouse_x) && (0..=767).contains(&input.mouse_y));
        assert!(input.mouse_buttons <= 7);
    }
}
