//! Displays: the text display, whose cells are kept here and copied to the
//! video memory by the caller, and the graphical display, of which the
//! runs of pixels to write are computed.

use vstd::prelude::*;
use vstd::string::StrSliceExecFns;

verus! {

/// A position in two dimensions, or a width and a height.
#[derive(Copy, Clone, PartialEq, Eq, Debug, Structural)]
pub struct Position(pub usize, pub usize);

pub trait Area {
    /// The area can be computed in a machine word.
    spec fn area_fits(&self) -> bool;

    /// The area of the rectangle from the origin to the position.
    spec fn spec_area(&self) -> int;

    fn area_from_origin(&self) -> (r: usize)
        requires
            self.area_fits(),
        ensures
            r == self.spec_area(),
    ;
}

impl Area for Position {
    open spec fn area_fits(&self) -> bool {
        self.0 * self.1 <= usize::MAX
    }

    open spec fn spec_area(&self) -> int {
        self.0 * self.1
    }

    fn area_from_origin(&self) -> (r: usize) {
        self.0 * self.1
    }
}

#[derive(Copy, Clone, PartialEq, Eq, Debug, Structural)]
pub enum Color {
    Rgb(i8, i8, i8),
    Code(u32),
    Black,
    Blue,
    Green,
    Cyan,
    Red,
    Magenta,
    Brown,
    LightGray,
    DarkGray,
    LightBlue,
    LightGreen,
    LightCyan,
    LightRed,
    LightMagenta,
    Yellow,
    White,
}

/// The number of a colour in the palette of 16 colours; 16 for a colour
/// that is given by its parts.
pub open spec fn spec_palette(c: Color) -> int {
    match c {
        Color::Black => 0x0,
        Color::Blue => 0x1,
        Color::Green => 0x2,
        Color::Cyan => 0x3,
        Color::Red => 0x4,
        Color::Magenta => 0x5,
        Color::Brown => 0x6,
        Color::LightGray => 0x7,
        Color::DarkGray => 0x8,
        Color::LightBlue => 0x9,
        Color::LightGreen => 0xA,
        Color::LightCyan => 0xB,
        Color::LightRed => 0xC,
        Color::LightMagenta => 0xD,
        Color::Yellow => 0xE,
        Color::White => 0xF,
        _ => 16,
    }
}

/// What every display offers.
pub trait Display {
    spec fn spec_background(&self) -> Color;

    spec fn spec_foreground(&self) -> Color;

    fn color_background(&self) -> (r: &Color)
        ensures
            *r == self.spec_background(),
    ;

    fn set_color_background(&mut self, bg: Color)
        ensures
            final(self).spec_background() == bg,
            final(self).spec_foreground() == old(self).spec_foreground(),
    ;

    fn color_foreground(&self) -> (r: &Color)
        ensures
            *r == self.spec_foreground(),
    ;

    fn set_color_foreground(&mut self, fg: Color)
        ensures
            final(self).spec_foreground() == fg,
            final(self).spec_background() == old(self).spec_background(),
    ;
}

/// The cell of the text display for a character with the colours of the
/// given numbers: the character in the low byte, above it four bits of
/// foreground and four bits of background.
pub open spec fn spec_pixel(bg: int, fg: int, c: char) -> u16 {
    ((bg as u16) << 12) | ((fg as u16) << 8) | (c as u16)
}

/// The cells of a text display, the position of the next character, and
/// the size.
pub struct Screen {
    pub cells: Seq<u16>,
    pub x: int,
    pub y: int,
    pub width: int,
    pub height: int,
}

impl Screen {
    pub open spec fn wf(self) -> bool {
        &&& 0 < self.width
        &&& 0 < self.height
        &&& self.cells.len() == self.width * self.height
        &&& 0 <= self.x < self.width
        &&& 0 <= self.y < self.height
    }

    /// The screen moved up by one line, with a last line of `space`.
    pub open spec fn scrolled(self, space: u16) -> Screen {
        Screen {
            cells: self.cells.subrange(self.width, self.cells.len() as int) + Seq::new(
                self.width as nat,
                |i: int| space,
            ),
            y: self.y - 1,
            ..self
        }
    }

    /// The screen after one character: a line feed goes to the start of
    /// the next line, any other character is put at the position, which
    /// moves on; at the end of a line the position goes to the next line,
    /// and behind the last line the screen moves up.
    pub open spec fn put(self, c: char, cell: u16, space: u16) -> Screen {
        let placed = if c != '\n' {
            Screen { cells: self.cells.update(self.x + self.y * self.width, cell), x: self.x + 1, ..self }
        } else {
            Screen { x: 0, y: self.y + 1, ..self }
        };
        let wrapped = if placed.width <= placed.x {
            Screen { x: 0, y: placed.y + 1, ..placed }
        } else {
            placed
        };
        if wrapped.height <= wrapped.y {
            wrapped.scrolled(space)
        } else {
            wrapped
        }
    }

    /// The screen after the characters from `from` on.
    pub open spec fn put_all(self, s: Seq<char>, from: int, bg: int, fg: int) -> Screen
        decreases s.len() - from,
    {
        if from < 0 || from >= s.len() {
            self
        } else {
            self.put(s[from], spec_pixel(bg, fg, s[from]), spec_pixel(bg, fg, ' ')).put_all(
                s,
                from + 1,
                bg,
                fg,
            )
        }
    }

    /// A character keeps the screen sound.
    pub proof fn lemma_put(self, c: char, cell: u16, space: u16)
        requires
            self.wf(),
        ensures
            self.put(c, cell, space).wf(),
            self.put(c, cell, space).width == self.width,
            self.put(c, cell, space).height == self.height,
            0 <= self.x + self.y * self.width < self.cells.len(),
    {
        let w = self.width;
        let h = self.height;
        assert(self.y * w + w <= h * w) by (nonlinear_arith)
            requires
                0 <= self.y < h,
                0 < w,
        ;
        assert(0 <= self.y * w) by (nonlinear_arith)
            requires
                0 <= self.y,
                0 < w,
        ;
        assert(w * h == h * w) by (nonlinear_arith);
    }
}

/// The text display: a grid of cells, each a character with its colours.
pub struct CharacterDisplay {
    pub vram_addr: usize,
    pub vram: Vec<u16>,
    pub current_position: Position,
    pub max_position: Position,
    pub color_background: Color,
    pub color_foreground: Color,
}

impl View for CharacterDisplay {
    type V = Screen;

    open spec fn view(&self) -> Screen {
        Screen {
            cells: self.vram@,
            x: self.current_position.0 as int,
            y: self.current_position.1 as int,
            width: self.max_position.0 as int,
            height: self.max_position.1 as int,
        }
    }
}

impl Default for CharacterDisplay {
    fn default() -> (r: CharacterDisplay)
        ensures
            r.vram@.len() == 0,
            r.current_position == Position(0, 0),
            r.max_position == Position(0, 0),
            r.color_background == Color::Black,
            r.color_foreground == Color::LightRed,
    {
        CharacterDisplay {
            vram_addr: 0,
            vram: Vec::new(),
            current_position: Position(0, 0),
            max_position: Position(0, 0),
            color_background: Color::Black,
            color_foreground: Color::LightRed,
        }
    }
}

impl CharacterDisplay {
    /// The colours are of the palette.
    pub open spec fn colors_ok(&self) -> bool {
        spec_palette(self.color_background) < 16 && spec_palette(self.color_foreground) < 16
    }

    /// A display of the given size whose cells stand at `vram_addr` in the
    /// machine. The cells are clear, black on light red.
    pub fn new(vram_addr: usize, max_p: Position) -> (r: CharacterDisplay)
        requires
            max_p.area_fits(),
        ensures
            r.vram_addr == vram_addr,
            r.max_position == max_p,
            r.current_position == Position(0, 0),
            r.color_background == Color::Black,
            r.color_foreground == Color::LightRed,
            r.vram@ == Seq::new(max_p.spec_area() as nat, |i: int| 0u16),
    {
        let max_texts_num = max_p.area_from_origin();
        let mut vram: Vec<u16> = Vec::new();
        let mut i: usize = 0;
        while i < max_texts_num
            invariant
                i <= max_texts_num,
                vram@ == Seq::new(i as nat, |k: int| 0u16),
            decreases max_texts_num - i,
        {
            vram.push(0);
            proof {
                assert(vram@ =~= Seq::new((i + 1) as nat, |k: int| 0u16));
            }
            i += 1;
        }
        CharacterDisplay {
            vram_addr: vram_addr,
            vram: vram,
            current_position: Position(0, 0),
            max_position: max_p,
            color_background: Color::Black,
            color_foreground: Color::LightRed,
        }
    }

    pub fn set_current_position(&mut self, pos: Position)
        ensures
            *final(self) == (CharacterDisplay { current_position: pos, ..*old(self) }),
    {
        self.current_position = pos;
    }

    /// The number of a colour of the palette.
    pub fn color(c: &Color) -> (r: u8)
        requires
            spec_palette(*c) < 16,
        ensures
            r == spec_palette(*c),
    {
        match *c {
            Color::Black => 0x0,
            Color::Blue => 0x1,
            Color::Green => 0x2,
            Color::Cyan => 0x3,
            Color::Red => 0x4,
            Color::Magenta => 0x5,
            Color::Brown => 0x6,
            Color::LightGray => 0x7,
            Color::DarkGray => 0x8,
            Color::LightBlue => 0x9,
            Color::LightGreen => 0xA,
            Color::LightCyan => 0xB,
            Color::LightRed => 0xC,
            Color::LightMagenta => 0xD,
            Color::Yellow => 0xE,
            _ => 0xF,
        }
    }

    /// The cell for a character with the colours of the display.
    pub fn gen_pixel(&self, c: char) -> (r: u16)
        requires
            self.colors_ok(),
        ensures
            r == spec_pixel(spec_palette(self.color_background), spec_palette(self.color_foreground), c),
    {
        let bg = Self::color(&self.color_background) as u16;
        let fg = Self::color(&self.color_foreground) as u16;

        (bg << 12) | (fg << 8) | (c as u16)
    }

    /// Clears the screen: every cell becomes a space.
    pub fn clear_screen(&mut self)
        requires
            old(self).colors_ok(),
            old(self).vram@.len() == old(self).max_position.spec_area(),
        ensures
            final(self).vram@ == Seq::new(
                old(self).vram@.len(),
                |i: int|
                    spec_pixel(
                        spec_palette(old(self).color_background),
                        spec_palette(old(self).color_foreground),
                        ' ',
                    ),
            ),
            final(self).current_position == old(self).current_position,
            final(self).max_position == old(self).max_position,
            final(self).color_background == old(self).color_background,
            final(self).color_foreground == old(self).color_foreground,
            final(self).vram_addr == old(self).vram_addr,
    {
        let space = self.gen_pixel(' ');
        let n = self.vram.len();
        let mut i: usize = 0;
        while i < n
            invariant
                i <= n,
                n == self.vram@.len(),
                self.current_position == old(self).current_position,
                self.max_position == old(self).max_position,
                self.color_background == old(self).color_background,
                self.color_foreground == old(self).color_foreground,
                self.vram_addr == old(self).vram_addr,
                forall|k: int| 0 <= k < i ==> self.vram@[k] == space,
            decreases n - i,
        {
            self.vram[i] = space;
            i += 1;
        }
        proof {
            assert(self.vram@ =~= Seq::new(n as nat, |i: int| space));
        }
    }

    /// Puts one character on the screen.
    pub fn put_char(&mut self, c: char)
        requires
            old(self)@.wf(),
            old(self).colors_ok(),
        ensures
            final(self)@ == old(self)@.put(
                c,
                spec_pixel(
                    spec_palette(old(self).color_background),
                    spec_palette(old(self).color_foreground),
                    c,
                ),
                spec_pixel(
                    spec_palette(old(self).color_background),
                    spec_palette(old(self).color_foreground),
                    ' ',
                ),
            ),
            final(self)@.wf(),
            final(self).color_background == old(self).color_background,
            final(self).color_foreground == old(self).color_foreground,
            final(self).vram_addr == old(self).vram_addr,
    {
        let width = self.max_position.0;
        let height = self.max_position.1;
        let code = self.gen_pixel(c);
        let space = self.gen_pixel(' ');
        proof {
            self@.lemma_put(c, code, space);
        }
        let ghost start = self@;
        let length = self.vram.len();
        if c != '\n' {
            let x = self.current_position.0;
            let y = self.current_position.1;
            proof {
                assert(length == start.cells.len());
                assert(y * width >= 0) by (nonlinear_arith)
                    requires
                        y >= 0,
                        width >= 0,
                ;
                assert(x + y * width == start.x + start.y * start.width);
            }
            self.vram[x + y * width] = code;
            self.current_position.0 = x + 1;
        } else {
            self.current_position.0 = 0;
            self.current_position.1 = self.current_position.1 + 1;
        }
        if width <= self.current_position.0 {
            self.current_position.0 = 0;
            self.current_position.1 = self.current_position.1 + 1;
        }
        if height <= self.current_position.1 {
            // The screen moves up by one line.
            let ghost wrapped = self@;
            let area = self.vram.len();
            let mut i: usize = width;
            while i < area
                invariant
                    0 < width <= i <= area,
                    area == self.vram@.len(),
                    area == wrapped.cells.len(),
                    wrapped.width == width,
                    self.max_position == old(self).max_position,
                    self.color_background == old(self).color_background,
                    self.color_foreground == old(self).color_foreground,
                    self.vram_addr == old(self).vram_addr,
                    self@.x == wrapped.x,
                    self@.y == wrapped.y,
                    forall|k: int| 0 <= k < i - width ==> self.vram@[k] == wrapped.cells[k + width],
                    forall|k: int| i - width <= k < area ==> self.vram@[k] == wrapped.cells[k],
                decreases area - i,
            {
                let cell = self.vram[i];
                self.vram[i - width] = cell;
                i += 1;
            }
            // The last line is clear.
            let mut i: usize = area - width;
            while i < area
                invariant
                    0 < width <= area,
                    area - width <= i <= area,
                    area == self.vram@.len(),
                    area == wrapped.cells.len(),
                    wrapped.width == width,
                    self.max_position == old(self).max_position,
                    self.color_background == old(self).color_background,
                    self.color_foreground == old(self).color_foreground,
                    self.vram_addr == old(self).vram_addr,
                    self@.x == wrapped.x,
                    self@.y == wrapped.y,
                    forall|k: int| 0 <= k < area - width ==> self.vram@[k] == wrapped.cells[k + width],
                    forall|k: int| area - width <= k < i ==> self.vram@[k] == space,
                decreases area - i,
            {
                self.vram[i] = space;
                i += 1;
            }
            self.current_position.1 = self.current_position.1 - 1;
            proof {
                assert(self@.cells =~= wrapped.scrolled(space).cells);
            }
        }
    }

    /// Prints the text from the current position on.
    pub fn print(&mut self, string: &str)
        requires
            old(self)@.wf(),
            old(self).colors_ok(),
        ensures
            final(self)@ == old(self)@.put_all(
                string@,
                0,
                spec_palette(old(self).color_background),
                spec_palette(old(self).color_foreground),
            ),
            final(self)@.wf(),
            final(self).color_background == old(self).color_background,
            final(self).color_foreground == old(self).color_foreground,
            final(self).vram_addr == old(self).vram_addr,
    {
        let n = string.unicode_len();
        let ghost bg = spec_palette(self.color_background);
        let ghost fg = spec_palette(self.color_foreground);
        let ghost goal = self@.put_all(string@, 0, bg, fg);
        let mut i: usize = 0;
        while i < n
            invariant
                i <= n,
                n == string@.len(),
                self@.wf(),
                self.colors_ok(),
                self.color_background == old(self).color_background,
                self.color_foreground == old(self).color_foreground,
                self.vram_addr == old(self).vram_addr,
                bg == spec_palette(self.color_background),
                fg == spec_palette(self.color_foreground),
                self@.put_all(string@, i as int, bg, fg) == goal,
            decreases n - i,
        {
            let c = string.get_char(i);
            self.put_char(c);
            i += 1;
        }
    }

    /// Prints the text and goes to the start of the next line.
    pub fn println(&mut self, s: &str)
        requires
            old(self)@.wf(),
            old(self).colors_ok(),
        ensures
            final(self)@ == old(self)@.put_all(
                s@,
                0,
                spec_palette(old(self).color_background),
                spec_palette(old(self).color_foreground),
            ).put(
                '\n',
                spec_pixel(
                    spec_palette(old(self).color_background),
                    spec_palette(old(self).color_foreground),
                    '\n',
                ),
                spec_pixel(
                    spec_palette(old(self).color_background),
                    spec_palette(old(self).color_foreground),
                    ' ',
                ),
            ),
            final(self)@.wf(),
            final(self).color_background == old(self).color_background,
            final(self).color_foreground == old(self).color_foreground,
            final(self).vram_addr == old(self).vram_addr,
    {
        self.print(s);
        self.put_char('\n');
    }
}

impl Display for CharacterDisplay {
    open spec fn spec_background(&self) -> Color {
        self.color_background
    }

    open spec fn spec_foreground(&self) -> Color {
        self.color_foreground
    }

    fn color_background(&self) -> (r: &Color) {
        &self.color_background
    }

    fn set_color_background(&mut self, bg: Color) {
        self.color_background = bg;
    }

    fn color_foreground(&self) -> (r: &Color) {
        &self.color_foreground
    }

    fn set_color_foreground(&mut self, fg: Color) {
        self.color_foreground = fg;
    }
}

/// The sizes and the positions in bits of the parts of a pixel.
#[derive(Copy, Clone, PartialEq, Eq, Debug, Structural)]
pub struct ColorBitInfo {
    pub size_r: u8,
    pub size_g: u8,
    pub size_b: u8,
    pub size_rsvd: u8,
    pub pos_r: u8,
    pub pos_g: u8,
    pub pos_b: u8,
    pub pos_rsvd: u8,
}

/// A run of pixels to write: `count` times the value, from the address on,
/// `stride` bytes apart.
#[derive(Copy, Clone, PartialEq, Eq, Debug, Structural)]
pub struct FillRun {
    pub address: usize,
    pub count: usize,
    pub stride: usize,
    pub value: u32,
}

/// The graphical display.
pub struct GraphicalDisplay {
    pub vram_addr: usize,
    pub max_position: Position,
    pub bit_info: ColorBitInfo,
    pub byte_per_pixel: usize,
}

/// The pixel for the three parts of a colour.
pub open spec fn spec_parts(info: ColorBitInfo, r: u32, g: u32, b: u32) -> u32 {
    ((0u32) << info.pos_rsvd) | (r << info.pos_r) | (g << info.pos_g) | (b << info.pos_b)
}

/// The pixel for a colour: the number of a colour of the palette, or the
/// parts of the colour at their positions.
pub open spec fn spec_color(info: ColorBitInfo, c: Color) -> u32 {
    match c {
        Color::Code(rgb) => spec_parts(
            info,
            ((rgb >> 16) as u8) as u32,
            ((rgb >> 8) as u8) as u32,
            ((rgb & 0xFF) as u8) as u32,
        ),
        Color::Rgb(r, g, b) => spec_parts(info, r as u32, g as u32, b as u32),
        _ => spec_palette(c) as u32,
    }
}

impl GraphicalDisplay {
    /// The positions of the parts lie in a pixel of 32 bits.
    pub open spec fn wf(&self) -> bool {
        &&& self.bit_info.pos_r < 32
        &&& self.bit_info.pos_g < 32
        &&& self.bit_info.pos_b < 32
        &&& self.bit_info.pos_rsvd < 32
    }

    pub fn new(vram_addr: usize, max_position: Position, bit_info: ColorBitInfo) -> (r: GraphicalDisplay)
        requires
            bit_info.size_r + bit_info.size_g + bit_info.size_b + bit_info.size_rsvd <= u8::MAX,
        ensures
            r.vram_addr == vram_addr,
            r.max_position == max_position,
            r.bit_info == bit_info,
            r.byte_per_pixel == (bit_info.size_r + bit_info.size_g + bit_info.size_b + bit_info.size_rsvd) / 8,
    {
        let bpp = (bit_info.size_r + bit_info.size_g + bit_info.size_b + bit_info.size_rsvd) / 8;
        GraphicalDisplay {
            vram_addr: vram_addr,
            max_position: max_position,
            bit_info: bit_info,
            byte_per_pixel: bpp as usize,
        }
    }

    /// The run that fills the display: one pixel of 4 bytes after the
    /// other.
    pub fn fill_display(&self, c: &Color) -> (r: FillRun)
        requires
            self.wf(),
            self.max_position.area_fits(),
        ensures
            r == (FillRun {
                address: self.vram_addr,
                count: self.max_position.spec_area() as usize,
                stride: 4,
                value: spec_color(self.bit_info, *c),
            }),
    {
        let Position(x, y) = self.max_position;
        let color_bit = self.color(c);
        FillRun { address: self.vram_addr, count: x * y, stride: 4, value: color_bit }
    }

    /// The number of bytes from one row to the next.
    pub open spec fn spec_row_bytes(&self) -> int {
        self.max_position.0 * self.byte_per_pixel
    }

    /// The address of the first pixel of the row `row` of an area.
    pub open spec fn spec_row_address(&self, begin: Position, row: int) -> int {
        self.vram_addr + (begin.1 + row) * self.spec_row_bytes() + begin.0 * self.byte_per_pixel
    }

    /// The area lies in the addresses of the machine.
    pub open spec fn area_fits(&self, end: Position) -> bool {
        &&& self.spec_row_bytes() <= usize::MAX
        &&& end.0 * self.byte_per_pixel <= usize::MAX
        &&& self.vram_addr + (end.1 + 1) * self.spec_row_bytes() + end.0 * self.byte_per_pixel
            <= usize::MAX
    }

    /// The runs that fill the area from `begin` up to `end`, one for each
    /// row.
    pub fn fill_area(&self, begin: Position, end: Position, c: &Color) -> (r: Vec<FillRun>)
        requires
            self.wf(),
            begin.0 <= end.0,
            begin.1 <= end.1,
            self.area_fits(end),
        ensures
            r@.len() == (if self.spec_row_bytes() > 0 {
                end.1 - begin.1
            } else {
                0
            }),
            forall|row: int|
                0 <= row < r@.len() ==> #[trigger] r@[row] == (FillRun {
                    address: self.spec_row_address(begin, row) as usize,
                    count: (end.0 - begin.0) as usize,
                    stride: self.byte_per_pixel,
                    value: spec_color(self.bit_info, *c),
                }),
    {
        let Position(size_x, _) = self.max_position;
        let bpp = self.byte_per_pixel;
        let dy = size_x * bpp;
        let ccode = self.color(c);
        let count = end.0 - begin.0;
        let mut runs: Vec<FillRun> = Vec::new();
        if dy == 0 {
            return runs;
        }
        proof {
            let d = dy as int;
            let b = bpp as int;
            assert(begin.1 * d <= end.1 * d && end.1 * d <= (end.1 + 1) * d && 0 <= begin.1 * d)
                by (nonlinear_arith)
                requires
                    0 <= begin.1 <= end.1,
                    0 <= d,
            ;
            assert(0 <= begin.0 * b <= end.0 * b) by (nonlinear_arith)
                requires
                    0 <= begin.0 <= end.0,
                    0 <= b,
            ;
            assert((end.1 + 1) * d == end.1 * d + d) by (nonlinear_arith);
        }
        let begin_x = begin.0 * bpp;
        let begin_y = begin.1 * dy;
        let end_y = end.1 * dy;
        let vy_e = self.vram_addr + end_y;
        let mut vy = self.vram_addr + begin_y;
        let mut row: usize = 0;
        while vy < vy_e
            invariant
                dy == self.spec_row_bytes(),
                dy > 0,
                bpp == self.byte_per_pixel,
                begin_x == begin.0 * bpp,
                begin_x <= end.0 * bpp,
                count == end.0 - begin.0,
                ccode == spec_color(self.bit_info, *c),
                vy_e == self.vram_addr + end.1 * dy,
                vy_e + dy + end.0 * bpp <= usize::MAX,
                begin.1 <= end.1,
                0 <= row <= end.1 - begin.1,
                vy == self.vram_addr + (begin.1 + row) * dy,
                runs@.len() == row,
                forall|k: int|
                    0 <= k < row ==> #[trigger] runs@[k] == (FillRun {
                        address: self.spec_row_address(begin, k) as usize,
                        count: count,
                        stride: bpp,
                        value: ccode,
                    }),
            decreases end.1 - begin.1 - row,
        {
            proof {
                let d = dy as int;
                let y = begin.1 + row;
                assert((y + 1) * d == y * d + d) by (nonlinear_arith);
                assert(y * d < end.1 * d ==> y < end.1) by (nonlinear_arith)
                    requires
                        d > 0,
                ;
            }
            runs.push(FillRun { address: vy + begin_x, count, stride: bpp, value: ccode });
            vy += dy;
            row += 1;
        }
        proof {
            let d = dy as int;
            let y = begin.1 + row;
            assert(y < end.1 ==> y * d < end.1 * d) by (nonlinear_arith)
                requires
                    d > 0,
            ;
        }
        runs
    }

    /// The runs that fill the area of the given size from `origin` on.
    pub fn fill_area_by_size(&self, origin: Position, size: Position, c: &Color) -> (r: Vec<FillRun>)
        requires
            self.wf(),
            origin.0 + size.0 <= usize::MAX,
            origin.1 + size.1 <= usize::MAX,
            self.area_fits(Position((origin.0 + size.0) as usize, (origin.1 + size.1) as usize)),
        ensures
            r@.len() == (if self.spec_row_bytes() > 0 {
                size.1 as int
            } else {
                0
            }),
            forall|row: int|
                0 <= row < r@.len() ==> #[trigger] r@[row] == (FillRun {
                    address: self.spec_row_address(origin, row) as usize,
                    count: size.0,
                    stride: self.byte_per_pixel,
                    value: spec_color(self.bit_info, *c),
                }),
    {
        let end = Position(origin.0 + size.0, origin.1 + size.1);
        self.fill_area(origin, end, c)
    }

    /// The pixel for a colour.
    pub fn color(&self, c: &Color) -> (r: u32)
        requires
            self.wf(),
        ensures
            r == spec_color(self.bit_info, *c),
    {
        match *c {
            Color::Black => 0x0,
            Color::Blue => 0x1,
            Color::Green => 0x2,
            Color::Cyan => 0x3,
            Color::Red => 0x4,
            Color::Magenta => 0x5,
            Color::Brown => 0x6,
            Color::LightGray => 0x7,
            Color::DarkGray => 0x8,
            Color::LightBlue => 0x9,
            Color::LightGreen => 0xA,
            Color::LightCyan => 0xB,
            Color::LightRed => 0xC,
            Color::LightMagenta => 0xD,
            Color::Yellow => 0xE,
            Color::White => 0xF,
            Color::Code(rgb) => {
                let r = (rgb >> 16) as u8;
                let g = (rgb >> 8) as u8;
                let b = (rgb & 0xFF) as u8;
                let bit_info = &self.bit_info;
                ((0u32) << bit_info.pos_rsvd) | ((r as u32) << bit_info.pos_r) | ((g as u32)
                    << bit_info.pos_g) | ((b as u32) << bit_info.pos_b)
            },
            Color::Rgb(r, g, b) => {
                let bit_info = &self.bit_info;
                ((0u32) << bit_info.pos_rsvd) | ((r as u32) << bit_info.pos_r) | ((g as u32)
                    << bit_info.pos_g) | ((b as u32) << bit_info.pos_b)
            },
        }
    }
}

} // verus!
