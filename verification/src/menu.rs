use vstd::prelude::*;
use crate::color::{color_to_rgba, Color};
use crate::pixel_utils::{clipped_block, fill_clipped_block, frame_rows, lemma_frame_grid_fits, lemma_usize_narrowing};
use crate::pixels::{lemma_u32_as_i32, painted};

verus! {

/// The visualisation shown in the window.
#[derive(Clone, Copy, PartialEq, Eq, Debug)]
pub enum ActiveSide {
    Original,
    Circular,
    Full,
    RayPattern,
    Pythagoras,
    FibonacciSpiral,
    SimpleProof,
    Combined,
}

/// The window title for each visualisation.
pub open spec fn title_of(side: ActiveSide) -> Seq<char> {
    match side {
        ActiveSide::Original => "StimStation - Original Visualization"@,
        ActiveSide::Circular => "StimStation - Circular Visualization"@,
        ActiveSide::Full => "StimStation - All Visualizations (Grid)"@,
        ActiveSide::RayPattern => "StimStation - Ray Pattern"@,
        ActiveSide::Pythagoras => "StimStation - Pythagoras Theorem"@,
        ActiveSide::FibonacciSpiral => "StimStation - Fibonacci Spiral"@,
        ActiveSide::SimpleProof => "StimStation - Simple Proof"@,
        ActiveSide::Combined => "StimStation - Combined Experience"@,
    }
}

/// The window title while `side` is shown.
pub fn window_title(side: ActiveSide) -> (title: &'static str)
    ensures
        title@ == title_of(side),
{
    match side {
        ActiveSide::Original => "StimStation - Original Visualization",
        ActiveSide::Circular => "StimStation - Circular Visualization",
        ActiveSide::Full => "StimStation - All Visualizations (Grid)",
        ActiveSide::RayPattern => "StimStation - Ray Pattern",
        ActiveSide::Pythagoras => "StimStation - Pythagoras Theorem",
        ActiveSide::FibonacciSpiral => "StimStation - Fibonacci Spiral",
        ActiveSide::SimpleProof => "StimStation - Simple Proof",
        ActiveSide::Combined => "StimStation - Combined Experience",
    }
}

/// Fills the `width`-by-`height` rectangle at `(x, y)` with `color`, fully opaque,
/// clipped to a frame `frame_width` pixels wide and as many rows high as its length
/// allows; a rectangle with no width or height draws nothing.
pub fn draw_rectangle(frame: &mut [u8], x: i32, y: i32, width: i32, height: i32, color: Color, frame_width: u32)
    requires
        frame_width > 0,
        4 * frame_width <= usize::MAX,
        width > 0 && height > 0 ==> x + width <= 0x8000_0000 && y + height <= 0x8000_0000,
    ensures
        final(frame)@ == if width > 0 && height > 0 {
            painted(
                old(frame)@,
                clipped_block(
                    x as int,
                    y as int,
                    width as int,
                    height as int,
                    frame_width,
                    (frame_rows(old(frame)@.len() as int, frame_width as int) as usize) as u32,
                ),
                seq![color.red, color.green, color.blue, 255u8],
            )
        } else {
            old(frame)@
        },
{
    let rows = frame.len() / (4 * frame_width as usize);
    proof {
        lemma_frame_grid_fits(frame@.len() as usize, frame_width);
        lemma_usize_narrowing(rows);
        lemma_u32_as_i32(frame_width);
    }
    if width > 0 && height > 0 {
        let rgba = color_to_rgba(color);
        fill_clipped_block(frame, x, y, width, height, frame_width, rows as u32, rgba);
    }
}

/// An entry of the menu: its label, the visualisation it selects, and a description.
pub struct MenuOption {
    pub name: String,
    pub visualization: ActiveSide,
    pub description: String,
}

/// The number of entries of the menu.
pub const MENU_LEN: usize = 8;

/// The dark panel behind the menu in a `width`-by-`height` window, as
/// `(x, y, width, height)`: half the window wide and centred, from twenty pixels above
/// the sixth of its height down to forty below two thirds of it.
pub fn menu_panel(width: u32, height: u32) -> (rect: (i32, i32, i32, i32))
    requires
        width <= 0x7fff_ffff,
        height <= 0x3fff_ffff,
    ensures
        rect.0 == width / 4,
        rect.1 == height / 6 - 20,
        rect.2 == width / 2,
        rect.3 == height * 2 / 3 + 40,
{
    let (w, h) = (width as i32, height as i32);
    (w / 4, h / 6 - 20, w / 2, h * 2 / 3 + 40)
}

/// The top of the line of menu option `index` in a window `height` pixels high: a third
/// of the way down, then thirty-five pixels per option.
pub fn option_top(height: u32, index: usize) -> (y: i32)
    requires
        height <= 0x3fff_ffff,
        index <= 1000,
    ensures
        y == height / 3 + index * 35,
{
    height as i32 / 3 + index as i32 * 35
}

/// The highlight behind the active option, whose name is `text_width` pixels wide, as
/// `(x, y, width, height)`: twenty pixels wider than the name on each side, centred in
/// the `width`-pixel window, from five pixels above the option's line, thirty high.
pub fn option_highlight(width: u32, height: u32, index: usize, text_width: i32) -> (rect: (i32, i32, i32, i32))
    requires
        width <= 0x7fff_ffff,
        height <= 0x3fff_ffff,
        index <= 1000,
        0 <= text_width <= 0x7fff_ffff - 40,
    ensures
        rect.0 == width / 2 - (text_width + 40) / 2,
        rect.1 == height / 3 + index * 35 - 5,
        rect.2 == text_width + 40,
        rect.3 == 30,
{
    let rect_width = text_width + 40;
    let y_pos = option_top(height, index);
    (width as i32 / 2 - rect_width / 2, y_pos - 5, rect_width, 30)
}

/// The frame with the colour bytes of the first `height` rows of `width` pixels scaled
/// to fifteen hundredths, rounded down; alpha bytes and later bytes unchanged.
pub open spec fn darkened(f: Seq<u8>, width: int, height: int) -> Seq<u8> {
    Seq::new(f.len(), |b: int| if b < 4 * width * height && b % 4 < 3 { (15 * f[b] / 100) as u8 } else { f[b] })
}

/// Darkens the scene behind the menu: each colour byte of the `width`-by-`height`
/// frame becomes fifteen hundredths of itself, rounded down.
pub fn darken_scene(frame: &mut [u8], width: u32, height: u32)
    requires
        4 * width * height <= old(frame)@.len(),
    ensures
        final(frame)@ == darkened(old(frame)@, width as int, height as int),
{
    let ghost f0 = frame@;
    let len = frame.len();
    let total: usize = if width == 0 || height == 0 {
        0
    } else {
        assert(4 * width <= 4 * width * height && (4 * width) * height == 4 * width * height) by (nonlinear_arith)
            requires
                height >= 1,
        ;
        assert(4 * width * height <= usize::MAX);
        let w4 = 4 * (width as usize);
        w4 * (height as usize)
    };
    assert(total == 4 * width * height) by (nonlinear_arith)
        requires
            width == 0 || height == 0 ==> total == 0,
            width != 0 && height != 0 ==> total == 4 * width * height,
    ;
    let mut b: usize = 0;
    while b < total
        invariant
            total == 4 * width * height,
            total <= f0.len(),
            frame@.len() == f0.len(),
            b <= total,
            forall|q: int| 0 <= q < b ==> #[trigger] frame@[q] == darkened(f0, width as int, height as int)[q],
            forall|q: int| b <= q < f0.len() ==> #[trigger] frame@[q] == f0[q],
        decreases total - b,
    {
        if b % 4 < 3 {
            let v = frame[b];
            frame[b] = (15 * (v as u16) / 100) as u8;
        }
        b = b + 1;
    }
    assert(frame@ =~= darkened(f0, width as int, height as int));
}

/// The visualisation of each menu entry, top to bottom.
pub open spec fn option_side(i: int) -> ActiveSide {
    if i == 0 {
        ActiveSide::Original
    } else if i == 1 {
        ActiveSide::Circular
    } else if i == 2 {
        ActiveSide::RayPattern
    } else if i == 3 {
        ActiveSide::Pythagoras
    } else if i == 4 {
        ActiveSide::FibonacciSpiral
    } else if i == 5 {
        ActiveSide::SimpleProof
    } else if i == 6 {
        ActiveSide::Combined
    } else {
        ActiveSide::Full
    }
}

/// The label of each menu entry, top to bottom.
pub open spec fn option_name(i: int) -> Seq<char> {
    if i == 0 {
        "Original Lines"@
    } else if i == 1 {
        "Circular"@
    } else if i == 2 {
        "Ray Pattern"@
    } else if i == 3 {
        "Pythagoras"@
    } else if i == 4 {
        "Fibonacci Spiral"@
    } else if i == 5 {
        "Simple Proof"@
    } else if i == 6 {
        "Combined"@
    } else {
        "Full Experience"@
    }
}

/// The description of each menu entry, top to bottom.
pub open spec fn option_description(i: int) -> Seq<char> {
    if i == 0 {
        "Classic line visualization"@
    } else if i == 1 {
        "Mesmerizing circular patterns"@
    } else if i == 2 {
        "Light rays pattern visualization"@
    } else if i == 3 {
        "Animated Pythagorean theorem proof"@
    } else if i == 4 {
        "The golden ratio spiral visualization"@
    } else if i == 5 {
        "Mathematical proof animation"@
    } else {
        "All visualizations running simultaneously"@
    }
}

/// The keys of the menu pressed since the last look.
#[derive(Clone, Copy)]
pub struct MenuKeys {
    pub escape: bool,
    pub arrow_up: bool,
    pub arrow_down: bool,
    pub enter: bool,
    pub space: bool,
}

/// What the menu shows: whether it is open, the highlighted entry, and whether an entry
/// was chosen since the choice was last taken.
pub struct MenuView {
    pub visible: bool,
    pub active_index: int,
    pub has_made_selection: bool,
}

/// The menu of visualisations. How long it has been left alone is kept by its owner.
pub struct Menu {
    visible: bool,
    active_index: usize,
    options: Vec<MenuOption>,
    has_made_selection: bool,
}

impl View for Menu {
    type V = MenuView;

    closed spec fn view(&self) -> MenuView {
        MenuView {
            visible: self.visible,
            active_index: self.active_index as int,
            has_made_selection: self.has_made_selection,
        }
    }
}

/// The menu after `keys` were pressed while it was open: the highlight moves down and
/// up, wrapping around, Enter or Space chooses the highlighted entry and closes the menu,
/// and Escape closes it.
pub open spec fn menu_after_keys(v: MenuView, keys: MenuKeys) -> MenuView {
    if !v.visible {
        MenuView { visible: keys.escape, ..v }
    } else {
        let down = if keys.arrow_down {
            (v.active_index + 1) % (MENU_LEN as int)
        } else {
            v.active_index
        };
        let up = if keys.arrow_up {
            if down == 0 {
                MENU_LEN - 1
            } else {
                down - 1
            }
        } else {
            down
        };
        let chosen = keys.enter || keys.space;
        MenuView {
            visible: !chosen && !keys.escape,
            active_index: up,
            has_made_selection: v.has_made_selection || chosen,
        }
    }
}

impl Menu {
    /// The entries are the eight of the menu, in order, and one is highlighted.
    pub closed spec fn wf(&self) -> bool {
        &&& self.options@.len() == MENU_LEN
        &&& self.active_index < MENU_LEN
        &&& forall|i: int| 0 <= i < MENU_LEN ==> (#[trigger] self.options@[i]).visualization == option_side(i)
    }

    /// The entries, top to bottom.
    pub closed spec fn entries(&self) -> Seq<MenuOption> {
        self.options@
    }

    /// The menu, open, with the first entry highlighted and nothing chosen.
    pub fn new() -> (m: Menu)
        ensures
            m.wf(),
            m@ == (MenuView { visible: true, active_index: 0, has_made_selection: false }),
            m.entries().len() == MENU_LEN,
            forall|i: int| 0 <= i < MENU_LEN ==> (#[trigger] m.entries()[i]).name@ == option_name(i)
                && m.entries()[i].visualization == option_side(i) && m.entries()[i].description@
                == option_description(i),
    {
        let mut options: Vec<MenuOption> = Vec::new();
        options.push(MenuOption { name: "Original Lines".to_string(), visualization: ActiveSide::Original, description: "Classic line visualization".to_string() });
        options.push(MenuOption { name: "Circular".to_string(), visualization: ActiveSide::Circular, description: "Mesmerizing circular patterns".to_string() });
        options.push(MenuOption { name: "Ray Pattern".to_string(), visualization: ActiveSide::RayPattern, description: "Light rays pattern visualization".to_string() });
        options.push(MenuOption { name: "Pythagoras".to_string(), visualization: ActiveSide::Pythagoras, description: "Animated Pythagorean theorem proof".to_string() });
        options.push(MenuOption { name: "Fibonacci Spiral".to_string(), visualization: ActiveSide::FibonacciSpiral, description: "The golden ratio spiral visualization".to_string() });
        options.push(MenuOption { name: "Simple Proof".to_string(), visualization: ActiveSide::SimpleProof, description: "Mathematical proof animation".to_string() });
        options.push(MenuOption { name: "Combined".to_string(), visualization: ActiveSide::Combined, description: "All visualizations running simultaneously".to_string() });
        options.push(MenuOption { name: "Full Experience".to_string(), visualization: ActiveSide::Full, description: "All visualizations running simultaneously".to_string() });
        Menu { visible: true, active_index: 0, options, has_made_selection: false }
    }

    /// Takes the keys pressed since the last look; tells whether the menu was touched, so
    /// that its owner restarts the wait before it closes by itself.
    pub fn handle_keys(&mut self, keys: MenuKeys) -> (touched: bool)
        requires
            old(self).wf(),
        ensures
            final(self).wf(),
            final(self).entries() == old(self).entries(),
            final(self)@ == menu_after_keys(old(self)@, keys),
            touched == (old(self)@.visible || keys.escape),
    {
        if !self.visible {
            if keys.escape {
                self.visible = true;
                return true;
            }
            return false;
        }
        if keys.arrow_down {
            self.active_index = (self.active_index + 1) % self.options.len();
        }
        if keys.arrow_up {
            self.active_index = if self.active_index == 0 {
                self.options.len() - 1
            } else {
                self.active_index - 1
            };
        }
        if keys.enter || keys.space {
            self.has_made_selection = true;
            self.visible = false;
        }
        if keys.escape {
            self.visible = false;
        }
        true
    }

    /// Closes the menu after it was left alone too long.
    pub fn time_out(&mut self)
        requires
            old(self).wf(),
        ensures
            final(self).wf(),
            final(self).entries() == old(self).entries(),
            final(self)@ == (MenuView { visible: false, ..old(self)@ }),
    {
        self.visible = false;
    }

    /// The visualisation of the highlighted entry.
    pub fn get_selected_visualization(&self) -> (side: ActiveSide)
        requires
            self.wf(),
        ensures
            side == option_side(self@.active_index),
    {
        self.options[self.active_index].visualization
    }

    /// Whether the menu is open.
    pub fn is_visible(&self) -> (v: bool)
        ensures
            v == self@.visible,
    {
        self.visible
    }

    /// Whether an entry was chosen since the choice was last taken.
    pub fn has_made_selection(&self) -> (s: bool)
        ensures
            s == self@.has_made_selection,
    {
        self.has_made_selection
    }

    /// Marks the choice as taken.
    pub fn reset_selection(&mut self)
        requires
            old(self).wf(),
        ensures
            final(self).wf(),
            final(self).entries() == old(self).entries(),
            final(self)@ == (MenuView { has_made_selection: false, ..old(self)@ }),
    {
        self.has_made_selection = false;
    }

    /// Opens the menu when closed and closes it when open; tells whether it opened.
    pub fn toggle_visibility(&mut self) -> (opened: bool)
        requires
            old(self).wf(),
        ensures
            final(self).wf(),
            final(self).entries() == old(self).entries(),
            final(self)@ == (MenuView { visible: !old(self)@.visible, ..old(self)@ }),
            opened == !old(self)@.visible,
    {
        self.visible = !self.visible;
        self.visible
    }

    /// The entries, top to bottom.
    pub fn options(&self) -> (o: &Vec<MenuOption>)
        ensures
            o@ == self.entries(),
    {
        &self.options
    }

    /// The index of the highlighted entry.
    pub fn active_index(&self) -> (i: usize)
        ensures
            i == self@.active_index,
    {
        self.active_index
    }
}

} // verus!
