//! What the pointer and the keys do to the address bar.

use crate::constants::{
    TITLE_BAR_HEIGHT, TOOLBAR_HEIGHT, WINDOW_HEIGHT, WINDOW_INIT_X_POS, WINDOW_INIT_Y_POS,
    WINDOW_WIDTH,
};
use crate::text::string_of;
use vstd::prelude::*;

verus! {

/// Whether the address is being edited.
#[derive(Debug, Clone, Copy, PartialEq, Eq, Structural)]
pub enum InputMode {
    Normal,
    Editing,
}

/// Where a click lands.
#[derive(Debug, Clone, Copy, PartialEq, Eq, Structural)]
pub enum ClickTarget {
    /// Not in the window.
    Outside,
    /// In the toolbar, which holds the address bar.
    Toolbar,
    /// In the rest of the window.
    Content,
}

/// Where a click at a point of the screen lands.
pub open spec fn target_of(x: int, y: int) -> ClickTarget {
    let relative_x = x - WINDOW_INIT_X_POS;
    let relative_y = y - WINDOW_INIT_Y_POS;
    if relative_x < 0 || relative_x >= WINDOW_WIDTH || relative_y < 0 || relative_y
        >= WINDOW_HEIGHT {
        ClickTarget::Outside
    } else if relative_y < TOOLBAR_HEIGHT + TITLE_BAR_HEIGHT && relative_y >= TOOLBAR_HEIGHT {
        ClickTarget::Toolbar
    } else {
        ClickTarget::Content
    }
}

/// Where a click at a point of the screen lands.
pub fn click_target(x: i64, y: i64) -> (r: ClickTarget)
    ensures
        r == target_of(x as int, y as int),
{
    if x < WINDOW_INIT_X_POS || x >= WINDOW_INIT_X_POS + WINDOW_WIDTH || y < WINDOW_INIT_Y_POS || y
        >= WINDOW_INIT_Y_POS + WINDOW_HEIGHT {
        ClickTarget::Outside
    } else if y < WINDOW_INIT_Y_POS + TOOLBAR_HEIGHT + TITLE_BAR_HEIGHT && y >= WINDOW_INIT_Y_POS
        + TOOLBAR_HEIGHT {
        ClickTarget::Toolbar
    } else {
        ClickTarget::Content
    }
}

/// What is to be done after a key.
#[derive(Debug, PartialEq, Eq)]
pub enum KeyAction {
    /// Nothing.
    Ignore,
    /// The address bar is to be drawn again.
    Redraw,
    /// The address is to be fetched.
    Navigate(String),
}

pub enum KeyActionModel {
    Ignore,
    Redraw,
    Navigate(Seq<char>),
}

impl View for KeyAction {
    type V = KeyActionModel;

    open spec fn view(&self) -> KeyActionModel {
        match self {
            KeyAction::Ignore => KeyActionModel::Ignore,
            KeyAction::Redraw => KeyActionModel::Redraw,
            KeyAction::Navigate(url) => KeyActionModel::Navigate(url@),
        }
    }
}

/// The address bar: what has been typed, and whether typing goes on.
#[derive(Debug, PartialEq, Eq)]
pub struct AddressBar {
    input_url: Vec<char>,
    input_mode: InputMode,
}

pub struct AddressBarModel {
    pub input_url: Seq<char>,
    pub input_mode: InputMode,
}

impl View for AddressBar {
    type V = AddressBarModel;

    closed spec fn view(&self) -> AddressBarModel {
        AddressBarModel { input_url: self.input_url@, input_mode: self.input_mode }
    }
}

/// The keys that delete the last character.
pub open spec fn is_delete(c: char) -> bool {
    c == '\x7f' || c == '\x08'
}

impl AddressBarModel {
    /// The bar after a click: one in the toolbar empties the bar and starts
    /// the editing, one in the rest of the window ends it, one outside the
    /// window changes nothing.
    pub open spec fn clicked(self, target: ClickTarget) -> AddressBarModel {
        match target {
            ClickTarget::Outside => self,
            ClickTarget::Toolbar => AddressBarModel {
                input_url: Seq::empty(),
                input_mode: InputMode::Editing,
            },
            ClickTarget::Content => AddressBarModel { input_mode: InputMode::Normal, ..self },
        }
    }

    /// The bar after a key, and what is to be done. While the address is
    /// edited, the enter key sends it off and empties the bar, a delete key
    /// takes the last character away, and every other key adds its character.
    /// Otherwise keys do nothing.
    pub open spec fn keyed(self, c: char) -> (AddressBarModel, KeyActionModel) {
        match self.input_mode {
            InputMode::Normal => (self, KeyActionModel::Ignore),
            InputMode::Editing => if c == '\n' {
                (
                    AddressBarModel { input_url: Seq::empty(), input_mode: InputMode::Normal },
                    KeyActionModel::Navigate(self.input_url),
                )
            } else if is_delete(c) {
                (
                    AddressBarModel {
                        input_url: if self.input_url.len() > 0 {
                            self.input_url.drop_last()
                        } else {
                            self.input_url
                        },
                        ..self
                    },
                    KeyActionModel::Redraw,
                )
            } else {
                (
                    AddressBarModel { input_url: self.input_url.push(c), ..self },
                    KeyActionModel::Redraw,
                )
            },
        }
    }
}

impl AddressBar {
    /// An empty bar that is not being edited.
    pub fn new() -> (bar: Self)
        ensures
            bar@ == (AddressBarModel { input_url: Seq::empty(), input_mode: InputMode::Normal }),
    {
        Self { input_url: Vec::new(), input_mode: InputMode::Normal }
    }

    pub fn input_url(&self) -> (r: String)
        ensures
            r@ == self@.input_url,
    {
        string_of(&self.input_url)
    }

    pub fn input_mode(&self) -> (r: InputMode)
        ensures
            r == self@.input_mode,
    {
        self.input_mode
    }

    /// Takes a click in.
    pub fn click(&mut self, target: ClickTarget)
        ensures
            final(self)@ == old(self)@.clicked(target),
    {
        match target {
            ClickTarget::Outside => {},
            ClickTarget::Toolbar => {
                self.input_url = Vec::new();
                self.input_mode = InputMode::Editing;
            },
            ClickTarget::Content => {
                self.input_mode = InputMode::Normal;
            },
        }
    }

    /// Takes a key in.
    pub fn key(&mut self, c: char) -> (action: KeyAction)
        ensures
            (final(self)@, action@) == old(self)@.keyed(c),
    {
        match self.input_mode {
            InputMode::Normal => KeyAction::Ignore,
            InputMode::Editing => {
                if c == '\n' {
                    let url = string_of(&self.input_url);
                    self.input_url = Vec::new();
                    self.input_mode = InputMode::Normal;
                    KeyAction::Navigate(url)
                } else if c == '\x7f' || c == '\x08' {
                    self.input_url.pop();
                    KeyAction::Redraw
                } else {
                    self.input_url.push(c);
                    KeyAction::Redraw
                }
            },
        }
    }
}

} // verus!
