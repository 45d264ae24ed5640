//! The colour palette: one escape sequence for each named slot.

use crate::config::{slot_from_name, slot_named, ColorConf, ColorSlot};
use vstd::prelude::*;

verus! {

/// The escape sequences used to colour the output.  Every slot always holds
/// a sequence: the user's override where there is one, the default otherwise.
#[derive(Debug)]
pub struct Colors {
    /// Sequence for red text.
    pub red: String,
    /// Sequence for blue text.
    pub blue: String,
    /// Sequence for green text.
    pub green: String,
    /// Sequence for white text.
    pub white: String,
    /// Sequence for purple text.
    pub purple: String,
    /// Sequence for yellow text.
    pub yellow: String,
    /// Sequence for cyan text.
    pub cyan: String,
    /// Sequence that starts underlining.
    pub underline: String,
    /// Sequence that resets all attributes.
    pub end: String,
    /// Sequence for directory names.
    pub dir: String,
    /// Sequence for the name of the listed directory.
    pub current_dir: String,
    /// Sequence for file names.
    pub file: String,
    /// Sequence for descriptions.
    pub description: String,
}

/// The built-in sequence of each slot.
pub open spec fn default_sequence(slot: ColorSlot) -> Seq<char> {
    match slot {
        ColorSlot::Red => "\x1b[1;31m"@,
        ColorSlot::Green => "\x1b[1;32m"@,
        ColorSlot::Yellow => "\x1b[33m"@,
        ColorSlot::Blue => "\x1b[1;34m"@,
        ColorSlot::Purple => "\x1b[1;35m"@,
        ColorSlot::Cyan => "\x1b[36m"@,
        ColorSlot::White => "\x1b[37m"@,
        ColorSlot::Underline => "\x1b[4m"@,
        ColorSlot::End => "\x1b[0m"@,
        ColorSlot::Dir => "\x1b[36m\x1b[4m"@,
        ColorSlot::CurrentDir => "\x1b[1;36m\x1b[4m"@,
        ColorSlot::File => "\x1b[37m"@,
        ColorSlot::Description => "\x1b[33m"@,
    }
}

/// The built-in sequence of the slot that `name` names; empty for a name
/// that names none.
pub open spec fn default_named(name: Seq<char>) -> Seq<char> {
    match slot_named(name) {
        Some(slot) => default_sequence(slot),
        None => Seq::empty(),
    }
}

/// The text of each fragment of an override.
pub open spec fn fragment_texts(fragments: Seq<String>) -> Seq<Seq<char>> {
    Seq::new(fragments.len(), |i: int| fragments[i]@)
}

/// The sequence that a list of fragments stands for: each fragment behind
/// an escape character, in the order given.
pub open spec fn joined(fragments: Seq<Seq<char>>) -> Seq<char>
    decreases fragments.len(),
{
    if fragments.len() == 0 {
        Seq::empty()
    } else {
        joined(fragments.drop_last()) + seq!['\x1b'] + fragments.last()
    }
}

/// The sequence of `slot` under the configuration `conf`.
pub open spec fn resolved(conf: Option<&ColorConf>, slot: ColorSlot) -> Seq<char> {
    match conf {
        Some(c) => match c.of(slot) {
            Some(fragments) => joined(fragment_texts(fragments@)),
            None => default_sequence(slot),
        },
        None => default_sequence(slot),
    }
}

impl Colors {
    /// The sequence that the palette holds for `slot`.
    pub open spec fn of(&self, slot: ColorSlot) -> Seq<char> {
        match slot {
            ColorSlot::Red => self.red@,
            ColorSlot::Blue => self.blue@,
            ColorSlot::Green => self.green@,
            ColorSlot::White => self.white@,
            ColorSlot::Purple => self.purple@,
            ColorSlot::Yellow => self.yellow@,
            ColorSlot::Cyan => self.cyan@,
            ColorSlot::Underline => self.underline@,
            ColorSlot::End => self.end@,
            ColorSlot::Dir => self.dir@,
            ColorSlot::CurrentDir => self.current_dir@,
            ColorSlot::File => self.file@,
            ColorSlot::Description => self.description@,
        }
    }

    /// The palette for a configuration: each slot holds the user's override
    /// if there is one and the built-in sequence if not.
    pub fn new(conf: Option<&ColorConf>) -> (colors: Colors)
        ensures
            forall|slot: ColorSlot| #[trigger] colors.of(slot) == resolved(conf, slot),
    {
        match conf {
            Some(c) => Colors::from_cfg(c),
            None => Colors::default(),
        }
    }

    /// The palette that a set of overrides gives.
    pub fn from_cfg(color_conf: &ColorConf) -> (colors: Colors)
        ensures
            forall|slot: ColorSlot| #[trigger]
                colors.of(slot) == resolved(Some(color_conf), slot),
    {
        Colors {
            red: Colors::configured(color_conf, ColorSlot::Red),
            blue: Colors::configured(color_conf, ColorSlot::Blue),
            green: Colors::configured(color_conf, ColorSlot::Green),
            white: Colors::configured(color_conf, ColorSlot::White),
            purple: Colors::configured(color_conf, ColorSlot::Purple),
            yellow: Colors::configured(color_conf, ColorSlot::Yellow),
            cyan: Colors::configured(color_conf, ColorSlot::Cyan),
            underline: Colors::configured(color_conf, ColorSlot::Underline),
            end: Colors::configured(color_conf, ColorSlot::End),
            dir: Colors::configured(color_conf, ColorSlot::Dir),
            current_dir: Colors::configured(color_conf, ColorSlot::CurrentDir),
            file: Colors::configured(color_conf, ColorSlot::File),
            description: Colors::configured(color_conf, ColorSlot::Description),
        }
    }

    /// The built-in palette.
    pub fn default() -> (colors: Colors)
        ensures
            forall|slot: ColorSlot| #[trigger] colors.of(slot) == default_sequence(slot),
    {
        Colors {
            red: String::from_str(Colors::default_of(ColorSlot::Red)),
            blue: String::from_str(Colors::default_of(ColorSlot::Blue)),
            green: String::from_str(Colors::default_of(ColorSlot::Green)),
            white: String::from_str(Colors::default_of(ColorSlot::White)),
            purple: String::from_str(Colors::default_of(ColorSlot::Purple)),
            yellow: String::from_str(Colors::default_of(ColorSlot::Yellow)),
            cyan: String::from_str(Colors::default_of(ColorSlot::Cyan)),
            underline: String::from_str(Colors::default_of(ColorSlot::Underline)),
            end: String::from_str(Colors::default_of(ColorSlot::End)),
            dir: String::from_str(Colors::default_of(ColorSlot::Dir)),
            current_dir: String::from_str(Colors::default_of(ColorSlot::CurrentDir)),
            file: String::from_str(Colors::default_of(ColorSlot::File)),
            description: String::from_str(Colors::default_of(ColorSlot::Description)),
        }
    }

    /// The built-in sequence of `slot`.
    pub fn default_of(slot: ColorSlot) -> (sequence: &'static str)
        ensures
            sequence@ == default_sequence(slot),
    {
        match slot {
            ColorSlot::Red => "\x1b[1;31m",
            ColorSlot::Green => "\x1b[1;32m",
            ColorSlot::Yellow => "\x1b[33m",
            ColorSlot::Blue => "\x1b[1;34m",
            ColorSlot::Purple => "\x1b[1;35m",
            ColorSlot::Cyan => "\x1b[36m",
            ColorSlot::White => "\x1b[37m",
            ColorSlot::Underline => "\x1b[4m",
            ColorSlot::End => "\x1b[0m",
            ColorSlot::Dir => "\x1b[36m\x1b[4m",
            ColorSlot::CurrentDir => "\x1b[1;36m\x1b[4m",
            ColorSlot::File => "\x1b[37m",
            ColorSlot::Description => "\x1b[33m",
        }
    }

    /// The built-in sequence of the slot called `one`; empty if no slot has
    /// that name.
    pub fn default_one(one: &str) -> (sequence: &'static str)
        ensures
            sequence@ == default_named(one@),
    {
        match slot_from_name(one) {
            Some(slot) => Colors::default_of(slot),
            None => {
                proof {
                    reveal_strlit("");
                }
                ""
            },
        }
    }

    /// The sequence of `slot` under the overrides `color_conf`: the override,
    /// joined from its fragments, or the built-in sequence where the user
    /// gave none.
    pub fn configured(color_conf: &ColorConf, slot: ColorSlot) -> (sequence: String)
        ensures
            sequence@ == resolved(Some(color_conf), slot),
    {
        match color_conf.slot(slot) {
            Some(cs) => {
                let mut term_ansi = String::new();
                let mut i: usize = 0;
                while i < cs.len()
                    invariant
                        i <= cs.len(),
                        term_ansi@ == joined(fragment_texts(cs@.take(i as int))),
                    decreases cs.len() - i,
                {
                    proof {
                        let upto = fragment_texts(cs@.take(i + 1));
                        assert(upto.drop_last() =~= fragment_texts(cs@.take(i as int)));
                        assert(upto.last() == cs@[i as int]@);
                    }
                    term_ansi.push('\x1b');
                    term_ansi.append(cs[i].as_str());
                    i += 1;
                }
                proof {
                    assert(cs@.take(cs.len() as int) =~= cs@);
                }
                term_ansi
            },
            None => String::from_str(Colors::default_of(slot)),
        }
    }
}

} // verus!
