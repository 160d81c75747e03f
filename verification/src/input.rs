use vstd::prelude::*;
use crate::piece::Variant;

verus! {

/// A key the player pressed, as far as the game reads it.
#[derive(Clone, Copy, PartialEq, Eq, Structural, Debug)]
pub enum Key {
    Up,
    Down,
    Left,
    Right,
    Enter,
    Esc,
    Char(char),
    Other,
}

/// The variants in the order the menu lists them.
pub open spec fn menu_variant(i: int) -> Variant {
    if i == 0 {
        Variant::Russian
    } else if i == 1 {
        Variant::English
    } else if i == 2 {
        Variant::Brazilian
    } else {
        Variant::Turkish
    }
}

/// The variant on line `i` of the menu.
pub fn menu_variant_at(i: usize) -> (v: Variant)
    requires
        i < 4,
    ensures
        v == menu_variant(i as int),
{
    if i == 0 {
        Variant::Russian
    } else if i == 1 {
        Variant::English
    } else if i == 2 {
        Variant::Brazilian
    } else {
        Variant::Turkish
    }
}

/// What the variant menu does with a key.
#[derive(Clone, Copy, PartialEq, Eq, Structural, Debug)]
pub enum MenuAction {
    /// Keep showing the menu with this line highlighted.
    Highlight(usize),
    /// Start a game of this variant.
    Start(Variant),
    /// Leave the program.
    Quit,
}

pub open spec fn menu_step_spec(selected: usize, key: Key) -> MenuAction {
    match key {
        Key::Up => MenuAction::Highlight(if selected > 0 { (selected - 1) as usize } else { selected }),
        Key::Down => MenuAction::Highlight(if selected < 3 { (selected + 1) as usize } else { selected }),
        Key::Enter => MenuAction::Start(menu_variant(selected as int)),
        Key::Char(ch) => if ch == ' ' {
            MenuAction::Start(menu_variant(selected as int))
        } else if ch == 'q' || ch == 'Q' {
            MenuAction::Quit
        } else {
            MenuAction::Highlight(selected)
        },
        _ => MenuAction::Highlight(selected),
    }
}

/// The menu's answer to a key while line `selected` is highlighted: up and down move the
/// highlight within the four lines, Enter or space starts the highlighted variant, q quits.
pub fn menu_step(selected: usize, key: Key) -> (action: MenuAction)
    requires
        selected < 4,
    ensures
        action == menu_step_spec(selected, key),
        action matches MenuAction::Highlight(i) ==> i < 4,
{
    match key {
        Key::Up => {
            if selected > 0 {
                MenuAction::Highlight(selected - 1)
            } else {
                MenuAction::Highlight(selected)
            }
        },
        Key::Down => {
            if selected < 3 {
                MenuAction::Highlight(selected + 1)
            } else {
                MenuAction::Highlight(selected)
            }
        },
        Key::Enter => MenuAction::Start(menu_variant_at(selected)),
        Key::Char(ch) => {
            if ch == ' ' {
                MenuAction::Start(menu_variant_at(selected))
            } else if ch == 'q' || ch == 'Q' {
                MenuAction::Quit
            } else {
                MenuAction::Highlight(selected)
            }
        },
        _ => MenuAction::Highlight(selected),
    }
}

/// The menu lines to draw: all four the first time, else the one left and the one reached.
pub fn menu_rows_to_redraw(selected: usize, prev_selected: Option<usize>) -> (rows: Vec<usize>)
    ensures
        rows@ == (match prev_selected {
            Some(prev) => seq![prev, selected],
            None => seq![0usize, 1usize, 2usize, 3usize],
        }),
{
    let mut rows: Vec<usize> = Vec::new();
    match prev_selected {
        Some(prev) => {
            rows.push(prev);
            rows.push(selected);
        },
        None => {
            rows.push(0);
            rows.push(1);
            rows.push(2);
            rows.push(3);
        },
    }
    assert(rows@ =~= (match prev_selected {
        Some(prev) => seq![prev, selected],
        None => seq![0usize, 1usize, 2usize, 3usize],
    }));
    rows
}

/// What a key does during a game.
#[derive(Clone, Copy, PartialEq, Eq, Structural, Debug)]
pub enum Command {
    /// Leave the program.
    Quit,
    /// Go back to the variant menu.
    Menu,
    /// Hand the key to the game.
    Play(Key),
}

/// During a game, q quits and m opens the menu (either case); every other key goes to the game.
pub fn command_for(key: Key) -> (cmd: Command)
    ensures
        cmd == (if key == Key::Char('q') || key == Key::Char('Q') {
            Command::Quit
        } else if key == Key::Char('m') || key == Key::Char('M') {
            Command::Menu
        } else {
            Command::Play(key)
        }),
{
    match key {
        Key::Char(ch) => {
            if ch == 'q' || ch == 'Q' {
                Command::Quit
            } else if ch == 'm' || ch == 'M' {
                Command::Menu
            } else {
                Command::Play(key)
            }
        },
        _ => Command::Play(key),
    }
}

/// Up and down undo each other in the menu: from any line but the first, up then down comes
/// back to it, and from any line but the last, down then up does.
pub proof fn law_menu_up_down_undo(selected: usize)
    requires
        selected < 4,
    ensures
        0 < selected ==> (match menu_step_spec(selected, Key::Up) {
            MenuAction::Highlight(i) => menu_step_spec(i, Key::Down) == MenuAction::Highlight(selected),
            _ => false,
        }),
        selected < 3 ==> (match menu_step_spec(selected, Key::Down) {
            MenuAction::Highlight(i) => menu_step_spec(i, Key::Up) == MenuAction::Highlight(selected),
            _ => false,
        }),
        menu_step_spec(0, Key::Up) == MenuAction::Highlight(0),
        menu_step_spec(3, Key::Down) == MenuAction::Highlight(3),
{
}

/// The menu lists every variant, each on exactly one of its four lines.
pub proof fn law_menu_lists_each_variant_once(v: Variant)
    ensures
        exists|i: int| 0 <= i < 4 && #[trigger] menu_variant(i) == v,
        forall|i: int, j: int|
            0 <= i < j < 4 ==> #[trigger] menu_variant(i) != #[trigger] menu_variant(j),
{
    match v {
        Variant::Russian => assert(menu_variant(0) == v),
        Variant::English => assert(menu_variant(1) == v),
        Variant::Brazilian => assert(menu_variant(2) == v),
        Variant::Turkish => assert(menu_variant(3) == v),
    }
}

/// Enter and space both start the variant on the highlighted line.
pub proof fn law_menu_enter_like_space(selected: usize)
    requires
        selected < 4,
    ensures
        menu_step_spec(selected, Key::Enter) == menu_step_spec(selected, Key::Char(' ')),
        menu_step_spec(selected, Key::Enter) == MenuAction::Start(menu_variant(selected as int)),
{
}

} // verus!
