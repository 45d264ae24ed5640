//! User configuration: optional overrides for the colour palette.

use crate::text::same_text;
use vstd::prelude::*;

verus! {

/// One of the thirteen named colour slots of the palette.
#[derive(Clone, Copy, Debug, PartialEq, Eq, Structural)]
pub enum ColorSlot {
    Red,
    Blue,
    Green,
    White,
    Purple,
    Yellow,
    Cyan,
    Underline,
    End,
    Dir,
    CurrentDir,
    File,
    Description,
}

/// The slot that a configuration key names, if it names one.
pub open spec fn slot_named(key: Seq<char>) -> Option<ColorSlot> {
    if key == "red"@ {
        Some(ColorSlot::Red)
    } else if key == "blue"@ {
        Some(ColorSlot::Blue)
    } else if key == "green"@ {
        Some(ColorSlot::Green)
    } else if key == "white"@ {
        Some(ColorSlot::White)
    } else if key == "purple"@ {
        Some(ColorSlot::Purple)
    } else if key == "yellow"@ {
        Some(ColorSlot::Yellow)
    } else if key == "cyan"@ {
        Some(ColorSlot::Cyan)
    } else if key == "underline"@ {
        Some(ColorSlot::Underline)
    } else if key == "end"@ {
        Some(ColorSlot::End)
    } else if key == "dir"@ {
        Some(ColorSlot::Dir)
    } else if key == "current_dir"@ {
        Some(ColorSlot::CurrentDir)
    } else if key == "file"@ {
        Some(ColorSlot::File)
    } else if key == "description"@ {
        Some(ColorSlot::Description)
    } else {
        None
    }
}

/// The name of each slot, as configuration files write it.
pub open spec fn slot_name(slot: ColorSlot) -> Seq<char> {
    match slot {
        ColorSlot::Red => "red"@,
        ColorSlot::Blue => "blue"@,
        ColorSlot::Green => "green"@,
        ColorSlot::White => "white"@,
        ColorSlot::Purple => "purple"@,
        ColorSlot::Yellow => "yellow"@,
        ColorSlot::Cyan => "cyan"@,
        ColorSlot::Underline => "underline"@,
        ColorSlot::End => "end"@,
        ColorSlot::Dir => "dir"@,
        ColorSlot::CurrentDir => "current_dir"@,
        ColorSlot::File => "file"@,
        ColorSlot::Description => "description"@,
    }
}

/// Every slot is found under its own name: no two slots share a name.
pub proof fn lemma_slot_names(slot: ColorSlot)
    ensures
        slot_named(slot_name(slot)) == Some(slot),
{
    reveal_strlit("red");
    reveal_strlit("blue");
    reveal_strlit("green");
    reveal_strlit("white");
    reveal_strlit("purple");
    reveal_strlit("yellow");
    reveal_strlit("cyan");
    reveal_strlit("underline");
    reveal_strlit("end");
    reveal_strlit("dir");
    reveal_strlit("current_dir");
    reveal_strlit("file");
    reveal_strlit("description");
    assert("red"@.len() == 3 && "red"@[0] == 'r');
    assert("blue"@.len() == 4 && "blue"@[0] == 'b');
    assert("green"@.len() == 5 && "green"@[0] == 'g');
    assert("white"@.len() == 5 && "white"@[0] == 'w');
    assert("purple"@.len() == 6 && "purple"@[0] == 'p');
    assert("yellow"@.len() == 6 && "yellow"@[0] == 'y');
    assert("cyan"@.len() == 4 && "cyan"@[0] == 'c');
    assert("underline"@.len() == 9 && "underline"@[0] == 'u');
    assert("end"@.len() == 3 && "end"@[0] == 'e');
    assert("dir"@.len() == 3 && "dir"@[0] == 'd');
    assert("current_dir"@.len() == 11 && "current_dir"@[0] == 'c');
    assert("file"@.len() == 4 && "file"@[0] == 'f');
    assert("description"@.len() == 11 && "description"@[0] == 'd');
}

/// Looks a configuration key up among the slot names.
pub fn slot_from_name(key: &str) -> (slot: Option<ColorSlot>)
    ensures
        slot == slot_named(key@),
{
    if same_text(key, "red") {
        Some(ColorSlot::Red)
    } else if same_text(key, "blue") {
        Some(ColorSlot::Blue)
    } else if same_text(key, "green") {
        Some(ColorSlot::Green)
    } else if same_text(key, "white") {
        Some(ColorSlot::White)
    } else if same_text(key, "purple") {
        Some(ColorSlot::Purple)
    } else if same_text(key, "yellow") {
        Some(ColorSlot::Yellow)
    } else if same_text(key, "cyan") {
        Some(ColorSlot::Cyan)
    } else if same_text(key, "underline") {
        Some(ColorSlot::Underline)
    } else if same_text(key, "end") {
        Some(ColorSlot::End)
    } else if same_text(key, "dir") {
        Some(ColorSlot::Dir)
    } else if same_text(key, "current_dir") {
        Some(ColorSlot::CurrentDir)
    } else if same_text(key, "file") {
        Some(ColorSlot::File)
    } else if same_text(key, "description") {
        Some(ColorSlot::Description)
    } else {
        None
    }
}

/// The user's colour overrides.  Each slot is either absent or a list of
/// escape-code fragments such as `[1;31m`, written without the escape
/// character that introduces them.
#[derive(Debug)]
pub struct ColorConf {
    pub red: Option<Vec<String>>,
    pub blue: Option<Vec<String>>,
    pub green: Option<Vec<String>>,
    pub white: Option<Vec<String>>,
    pub purple: Option<Vec<String>>,
    pub yellow: Option<Vec<String>>,
    pub cyan: Option<Vec<String>>,
    pub underline: Option<Vec<String>>,
    pub end: Option<Vec<String>>,
    pub dir: Option<Vec<String>>,
    pub current_dir: Option<Vec<String>>,
    pub file: Option<Vec<String>>,
    pub description: Option<Vec<String>>,
}

/// The whole configuration.
#[derive(Debug)]
pub struct Config {
    /// Colour overrides, if the user gave any.
    pub colors: Option<ColorConf>,
}

impl ColorConf {
    /// What the configuration holds for `slot`.
    pub open spec fn of(&self, slot: ColorSlot) -> Option<Vec<String>> {
        match slot {
            ColorSlot::Red => self.red,
            ColorSlot::Blue => self.blue,
            ColorSlot::Green => self.green,
            ColorSlot::White => self.white,
            ColorSlot::Purple => self.purple,
            ColorSlot::Yellow => self.yellow,
            ColorSlot::Cyan => self.cyan,
            ColorSlot::Underline => self.underline,
            ColorSlot::End => self.end,
            ColorSlot::Dir => self.dir,
            ColorSlot::CurrentDir => self.current_dir,
            ColorSlot::File => self.file,
            ColorSlot::Description => self.description,
        }
    }

    /// What the configuration holds under `key`; nothing for a key that names
    /// no slot.
    pub open spec fn named(&self, key: Seq<char>) -> Option<Vec<String>> {
        match slot_named(key) {
            Some(slot) => self.of(slot),
            None => None,
        }
    }

    /// The override for one slot.
    pub fn slot(&self, slot: ColorSlot) -> (fragments: &Option<Vec<String>>)
        ensures
            *fragments == self.of(slot),
    {
        match slot {
            ColorSlot::Red => &self.red,
            ColorSlot::Blue => &self.blue,
            ColorSlot::Green => &self.green,
            ColorSlot::White => &self.white,
            ColorSlot::Purple => &self.purple,
            ColorSlot::Yellow => &self.yellow,
            ColorSlot::Cyan => &self.cyan,
            ColorSlot::Underline => &self.underline,
            ColorSlot::End => &self.end,
            ColorSlot::Dir => &self.dir,
            ColorSlot::CurrentDir => &self.current_dir,
            ColorSlot::File => &self.file,
            ColorSlot::Description => &self.description,
        }
    }

    /// The override stored under `key`.  A key that names no slot has none.
    pub fn get(&self, key: &str) -> (fragments: &Option<Vec<String>>)
        ensures
            *fragments == self.named(key@),
    {
        match slot_from_name(key) {
            Some(slot) => self.slot(slot),
            None => &None,
        }
    }
}

} // verus!
