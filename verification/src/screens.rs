//! The screen stack model: which interface screen is open and where.
//!
//! The core tracks the open screen as plain data — its kind, its state and
//! its panel position — and computes panel geometry (sizes, padding,
//! centering). Drawing the panels is an interface concern.

use vstd::prelude::*;
use vstd::string::StrSliceExecFns;
use crate::identifier::GlobalString;
use crate::ui::TextboxState;

verus! {

/// A panel size in pixels.
#[derive(Clone, Copy, Debug, PartialEq, Eq, Structural)]
pub struct ScreenDimensions {
    pub width: i32,
    pub height: i32,
}

/// The in-game escape menu.
pub struct EscapeScreen;

/// The title screen.
pub struct MainScreen;

/// The settings screen.
pub struct OptionsScreen {
    pub selected_style: usize,
}

impl OptionsScreen {
    pub fn new() -> (r: Self)
        ensures
            r.selected_style == 0,
    {
        OptionsScreen { selected_style: 0 }
    }
}

/// The building-selection screen.
pub struct SelectorScreen;

/// The player's inventory screen.
pub struct PlayerInventoryScreen {
    pub selected_slot: Option<u32>,
}

/// The save-game screen: a name being typed.
pub struct SavegameScreen {
    pub filename: TextboxState,
}

/// The world-selection screen.
pub struct WorldScreen {
    pub selected: Option<u32>,
}

impl WorldScreen {
    pub fn new() -> (r: Self)
        ensures
            r.selected is None,
    {
        WorldScreen { selected: None }
    }
}

/// A modal message box: an optional title, its text, and whether the player
/// may close it.
pub struct DialogBox {
    pub title: Option<GlobalString>,
    pub content: String,
    pub closeable: bool,
}

impl DialogBox {
    pub fn new(title: Option<GlobalString>, content: String) -> (r: Self)
        ensures
            r.title == title,
            r.content@ == content@,
            r.closeable,
    {
        DialogBox { title, content, closeable: true }
    }

    pub fn new_uncloseable(title: Option<GlobalString>, content: String) -> (r: Self)
        ensures
            r.title == title,
            r.content@ == content@,
            !r.closeable,
    {
        DialogBox { title, content, closeable: false }
    }
}

/// A container screen: which container (by position), how many slots it
/// shows, and the slot the player has picked up.
pub struct ContainerInventoryScreen {
    pub pos_x: i32,
    pub pos_y: i32,
    pub num_slots: u32,
    pub name: GlobalString,
    pub selected_slot: Option<u32>,
}

impl ContainerInventoryScreen {
    pub fn new(pos_x: i32, pos_y: i32, num_slots: u32, name: GlobalString) -> (r: Self)
        ensures
            r.pos_x == pos_x,
            r.pos_y == pos_y,
            r.num_slots == num_slots,
            r.name == name,
            r.selected_slot is None,
    {
        ContainerInventoryScreen { pos_x, pos_y, num_slots, name, selected_slot: None }
    }
}

/// The open screen, as data.
pub enum ScreenKind {
    Main(MainScreen),
    Escape(EscapeScreen),
    Options(OptionsScreen),
    Selector(SelectorScreen),
    PlayerInventory(PlayerInventoryScreen),
    Savegame(SavegameScreen),
    Worlds(WorldScreen),
    Dialog(DialogBox),
    ContainerInventory(ContainerInventoryScreen),
}

/// The inner panel size of a screen, before padding. A dialog grows with its
/// text; a container grows with its slot rows (nine slots to a row, fifty
/// pixels each); the fixed screens have fixed panels.
pub open spec fn spec_screen_rect(s: ScreenKind) -> (int, int) {
    match s {
        ScreenKind::Main(_) => (200, 120),
        ScreenKind::Escape(_) => (160, 140),
        ScreenKind::Options(_) => (300, 200),
        ScreenKind::Selector(_) => (400, 300),
        ScreenKind::PlayerInventory(_) => (450int, 250int),
        ScreenKind::Savegame(_) => (300, 80),
        ScreenKind::Worlds(_) => (320, 240),
        ScreenKind::Dialog(d) => (
            40 + 6 * (if d.content@.len() > 200 {
                200int
            } else {
                d.content@.len() as int
            }),
            20 + if d.closeable {
                44int
            } else {
                0int
            },
        ),
        ScreenKind::ContainerInventory(c) => (450int, ((c.num_slots + 8) / 9) as int * 50),
    }
}

/// The panel size with its frame: five pixels on each side and thirty on top.
pub open spec fn spec_screen_dimensions(s: ScreenKind) -> (int, int) {
    (spec_screen_rect(s).0 + 10, spec_screen_rect(s).1 + 35)
}

impl ScreenKind {
    /// The padded panel size of this screen.
    pub fn get_dimensions(&self) -> (r: ScreenDimensions)
        requires
            self matches ScreenKind::ContainerInventory(c) ==> c.num_slots < 0x1000_0000,
        ensures
            r.width == spec_screen_dimensions(*self).0,
            r.height == spec_screen_dimensions(*self).1,
    {
        let (w, h): (i32, i32) = match self {
            ScreenKind::Main(_) => (200, 120),
            ScreenKind::Escape(_) => (160, 140),
            ScreenKind::Options(_) => (300, 200),
            ScreenKind::Selector(_) => (400, 300),
            ScreenKind::PlayerInventory(_) => (450, 250),
            ScreenKind::Savegame(_) => (300, 80),
            ScreenKind::Worlds(_) => (320, 240),
            ScreenKind::Dialog(d) => {
                let len = d.content.as_str().unicode_len();
                let capped: i32 = if len > 200 {
                    200
                } else {
                    len as i32
                };
                (40 + 6 * capped, 20 + if d.closeable {
                    44
                } else {
                    0
                })
            },
            ScreenKind::ContainerInventory(c) => (450, (((c.num_slots + 8) / 9) * 50) as i32),
        };
        ScreenDimensions { width: w + 10, height: h + 35 }
    }
}

/// The currently open screen, if any, and where its panel sits.
pub struct CurrentScreen {
    pub screen: Option<ScreenKind>,
    pub x: i32,
    pub y: i32,
}

impl CurrentScreen {
    pub fn new() -> (r: Self)
        ensures
            r.screen is None,
            r.x == 0,
            r.y == 0,
    {
        CurrentScreen { screen: None, x: 0, y: 0 }
    }

    /// Open a screen at a position, replacing whatever was open.
    pub fn open(&mut self, screen: ScreenKind, x: i32, y: i32)
        ensures
            final(self).screen is Some,
            final(self).x == x,
            final(self).y == y,
    {
        self.screen = Some(screen);
        self.x = x;
        self.y = y;
    }

    pub fn is_screen_open(&self) -> (r: bool)
        ensures
            r == (self.screen is Some),
    {
        self.screen.is_some()
    }

    /// Close whatever is open and forget its position.
    pub fn close(&mut self)
        ensures
            final(self).screen is None,
            final(self).x == 0,
            final(self).y == 0,
    {
        self.screen = None;
        self.x = 0;
        self.y = 0;
    }

    /// The open screen's padded panel size; an empty stack has no extent.
    pub fn get_dimensions(&self) -> (r: ScreenDimensions)
        requires
            self.screen matches Some(s) ==> (s matches ScreenKind::ContainerInventory(c)
                ==> c.num_slots < 0x1000_0000),
        ensures
            match self.screen {
                Some(s) => r.width == spec_screen_dimensions(s).0 && r.height
                    == spec_screen_dimensions(s).1,
                None => r == (ScreenDimensions { width: 0, height: 0 }),
            },
    {
        match &self.screen {
            None => ScreenDimensions { width: 0, height: 0 },
            Some(s) => s.get_dimensions(),
        }
    }

    /// Move the panel so it sits centred on a display of the given size
    /// (halving toward zero, as pixel arithmetic does).
    pub fn move_to_center(&mut self, screen: &ScreenDimensions)
        requires
            old(self).screen matches Some(s) ==> (s matches ScreenKind::ContainerInventory(c)
                ==> c.num_slots < 0x1000_0000),
        ensures
            final(self).screen == old(self).screen,
            ({
                let d = match old(self).screen {
                    Some(s) => spec_screen_dimensions(s),
                    None => (0, 0),
                };
                final(self).x == spec_half_toward_zero(screen.width - d.0) && final(self).y
                    == spec_half_toward_zero(screen.height - d.1)
            }),
    {
        let dim = self.get_dimensions();
        self.x = half_toward_zero(screen.width as i64 - dim.width as i64);
        self.y = half_toward_zero(screen.height as i64 - dim.height as i64);
    }
}

/// Integer halving that rounds toward zero, as on-screen centering does.
pub open spec fn spec_half_toward_zero(v: int) -> int {
    if v >= 0 {
        v / 2
    } else {
        -((-v) / 2)
    }
}

fn half_toward_zero(v: i64) -> (r: i32)
    requires
        -0xffff_ffff <= v <= 0xffff_ffff,
    ensures
        r == spec_half_toward_zero(v as int),
{
    if v >= 0 {
        ((v as u64) / 2) as i32
    } else {
        let m = ((-v) as u64) / 2;
        (-(m as i64)) as i32
    }
}

/// Move the open panel to a position.
pub fn move_screen(cur: &mut CurrentScreen, x: i32, y: i32)
    ensures
        final(cur).screen == old(cur).screen,
        final(cur).x == x,
        final(cur).y == y,
{
    cur.x = x;
    cur.y = y;
}

/// Close the open panel.
pub fn close_screen(cur: &mut CurrentScreen)
    ensures
        final(cur).screen is None,
        final(cur).x == 0,
        final(cur).y == 0,
{
    cur.close();
}

/// Leave the session: close the screen, drop every pending task, clear the
/// notice board.
pub fn reset_all(
    cur: &mut CurrentScreen,
    queue: &mut crate::scheduler::TaskQueue,
    board: &mut crate::notice_board::NoticeBoard,
)
    ensures
        final(cur).screen is None,
        final(queue)@ == Seq::<crate::scheduler::Task>::empty(),
        final(board)@ == Seq::<crate::notice_board::NoticeEntry>::empty(),
{
    close_screen(cur);
    let _ = queue.get_tasks();
    board.reset();
}

} // verus!
