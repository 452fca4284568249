use axel::graphic::{
    Area, CharacterDisplay, Color, ColorBitInfo, Display, FillRun, GraphicalDisplay, Position,
};

#[test]
fn creating_position() {
    let mut p = Position(100, 100);
    assert_eq!(p, Position(100, 100));
    assert_eq!(p.area_from_origin(), 100 * 100);
    assert_eq!(p.0, 100);
    assert_eq!(p.1, 100);
    p.1 = 255;
    assert_eq!(p.1, 255);
}

#[test]
fn creating_character_display() {
    let c_disp = CharacterDisplay::new(0xB8000, Position(800, 600));
    assert_eq!(c_disp.current_position, Position(0, 0));
}

#[test]
fn setting_bg_fg_color() {
    let mut c_disp = CharacterDisplay::new(0xB8000, Position(800, 600));

    c_disp.set_color_background(Color::Red);
    c_disp.set_color_foreground(Color::LightBlue);
    let color_code = CharacterDisplay::color(c_disp.color_background());
    assert_eq!(color_code, 0x4);

    let color_code = CharacterDisplay::color(c_disp.color_foreground());
    assert_eq!(color_code, 0x9);
}

#[test]
fn default_display_is_empty() {
    let d = CharacterDisplay::default();
    assert_eq!(d.vram.len(), 0);
    assert_eq!(d.max_position, Position(0, 0));
    assert_eq!(d.color_background, Color::Black);
    assert_eq!(d.color_foreground, Color::LightRed);
}

#[test]
fn pixel_holds_colours_and_character() {
    let mut d = CharacterDisplay::new(0xB8000, Position(80, 25));
    assert_eq!(d.gen_pixel('A'), 0x0C41);
    d.set_color_background(Color::Blue);
    d.set_color_foreground(Color::White);
    assert_eq!(d.gen_pixel(' '), 0x1F20);
    assert_eq!(CharacterDisplay::color(&Color::Yellow), 0xE);
    assert_eq!(CharacterDisplay::color(&Color::White), 0xF);
}

#[test]
fn print_wraps_and_scrolls() {
    let mut d = CharacterDisplay::new(0xB8000, Position(4, 3));
    d.clear_screen();
    let space = 0x0C20;
    assert!(d.vram.iter().all(|cell| *cell == space));
    d.print("ab\ncdefg");
    let row = |s: &str| -> Vec<u16> {
        s.chars().map(|c| 0x0C00 | c as u16).collect()
    };
    assert_eq!(&d.vram[0..4], &row("ab  ")[..]);
    assert_eq!(&d.vram[4..8], &row("cdef")[..]);
    assert_eq!(&d.vram[8..12], &row("g   ")[..]);
    assert_eq!(d.current_position, Position(1, 2));
    // The line feed behind the last line moves the screen up.
    d.println("h");
    assert_eq!(&d.vram[0..4], &row("cdef")[..]);
    assert_eq!(&d.vram[4..8], &row("gh  ")[..]);
    assert_eq!(&d.vram[8..12], &row("    ")[..]);
    assert_eq!(d.current_position, Position(0, 2));
    // A full last line does the same.
    d.print("wxyz");
    assert_eq!(&d.vram[0..4], &row("gh  ")[..]);
    assert_eq!(&d.vram[4..8], &row("wxyz")[..]);
    assert_eq!(&d.vram[8..12], &row("    ")[..]);
    assert_eq!(d.current_position, Position(0, 2));
    d.set_current_position(Position(3, 0));
    d.print("!");
    assert_eq!(&d.vram[0..4], &row("gh !")[..]);
    assert_eq!(d.current_position, Position(0, 1));
}

fn info() -> ColorBitInfo {
    ColorBitInfo { size_r: 8, size_g: 8, size_b: 8, size_rsvd: 8, pos_r: 16, pos_g: 8, pos_b: 0, pos_rsvd: 24 }
}

#[test]
fn graphical_display_colours() {
    let d = GraphicalDisplay::new(0xFD000000, Position(640, 480), info());
    assert_eq!(d.byte_per_pixel, 4);
    assert_eq!(d.color(&Color::Code(0xD7003A)), 0x00D7003A);
    assert_eq!(d.color(&Color::Rgb(1, 2, 3)), 0x00010203);
    assert_eq!(d.color(&Color::Rgb(-1, 0, 0)), 0xFFFF0000);
    assert_eq!(d.color(&Color::Black), 0);
    assert_eq!(d.color(&Color::White), 0xF);
    assert_eq!(d.color(&Color::LightGray), 0x7);
}

#[test]
fn graphical_display_fills() {
    let d = GraphicalDisplay::new(0xFD000000, Position(640, 480), info());
    assert_eq!(
        d.fill_display(&Color::Code(0xD7003A)),
        FillRun { address: 0xFD000000, count: 640 * 480, stride: 4, value: 0x00D7003A }
    );
    let runs = d.fill_area_by_size(Position(3, 453), Position(60, 2), &Color::Code(0x848484));
    assert_eq!(
        runs,
        vec![
            FillRun { address: 0xFD000000 + 453 * 2560 + 12, count: 60, stride: 4, value: 0x848484 },
            FillRun { address: 0xFD000000 + 454 * 2560 + 12, count: 60, stride: 4, value: 0x848484 },
        ]
    );
    assert_eq!(d.fill_area(Position(0, 0), Position(10, 0), &Color::Black), vec![]);
    let runs = d.fill_area(Position(2, 1), Position(2, 2), &Color::Red);
    assert_eq!(runs, vec![FillRun { address: 0xFD000000 + 2560 + 8, count: 0, stride: 4, value: 4 }]);
}
