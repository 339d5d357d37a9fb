//! The lighting payloads that the daemon accepts, one family per device
//! class, and the descriptor that opens a session.

use vstd::prelude::*;

use crate::color::{BGRColor, KeyColor};

verus! {

/// A fully specified lighting payload for one device class.
#[derive(Clone, Copy, Debug, PartialEq, Eq, PartialOrd, Ord, Hash)]
pub enum Effect {
    Keyboard(KeyboardEffect),
    Mouse(MouseEffect),
    Mousepad(MousepadEffect),
    Headset(HeadsetEffect),
    Keypad(KeypadEffect),
    ChromaLink(ChromaLinkEffect),
}

/// Keyboard payloads; the daemon names them `CHROMA_NONE`, `CHROMA_STATIC`,
/// `CHROMA_CUSTOM`, `CHROMA_CUSTOM2` and `CHROMA_CUSTOM_KEY`.
#[derive(Clone, Copy, Debug, PartialEq, Eq, PartialOrd, Ord, Hash, Default)]
pub enum KeyboardEffect {
    #[default]
    Off,
    Static { color: BGRColor },
    Custom([[BGRColor; 22]; 6]),
    Custom2 { color: [[BGRColor; 24]; 8], key: [[KeyColor; 22]; 6] },
    CustomKey { color: [[BGRColor; 22]; 6], key: [[KeyColor; 22]; 6] },
}

/// Mouse payloads; the grid form is sent as `CHROMA_CUSTOM2`.
#[derive(Clone, Copy, Debug, PartialEq, Eq, PartialOrd, Ord, Hash, Default)]
pub enum MouseEffect {
    #[default]
    Off,
    Static { color: BGRColor },
    Custom([[BGRColor; 7]; 9]),
}

/// Mousepad payloads.
#[derive(Clone, Copy, Debug, PartialEq, Eq, PartialOrd, Ord, Hash, Default)]
pub enum MousepadEffect {
    #[default]
    Off,
    Static { color: BGRColor },
    Custom([BGRColor; 15]),
}

/// Headset payloads.
#[derive(Clone, Copy, Debug, PartialEq, Eq, PartialOrd, Ord, Hash, Default)]
pub enum HeadsetEffect {
    #[default]
    Off,
    Static { color: BGRColor },
    Custom([BGRColor; 5]),
}

/// Keypad payloads.
#[derive(Clone, Copy, Debug, PartialEq, Eq, PartialOrd, Ord, Hash, Default)]
pub enum KeypadEffect {
    #[default]
    Off,
    Static { color: BGRColor },
    Custom([[BGRColor; 5]; 4]),
}

/// Chroma Link payloads.
#[derive(Clone, Copy, Debug, PartialEq, Eq, PartialOrd, Ord, Hash, Default)]
pub enum ChromaLinkEffect {
    #[default]
    Off,
    Static { color: BGRColor },
    Custom([BGRColor; 5]),
}

/// The path, relative to the session's base URL, under which effects of
/// this device class are created.
pub open spec fn api_path(e: Effect) -> Seq<char> {
    match e {
        Effect::Keyboard(_) => "keyboard"@,
        Effect::Mouse(_) => "mouse"@,
        Effect::Mousepad(_) => "mousepad"@,
        Effect::Headset(_) => "headset"@,
        Effect::Keypad(_) => "keypad"@,
        Effect::ChromaLink(_) => "chromalink"@,
    }
}

impl Effect {
    /// The relative path under which this effect is created.
    pub fn get_api(&self) -> (p: &'static str)
        ensures
            p@ == api_path(*self),
    {
        match self {
            Effect::Keyboard(_) => "keyboard",
            Effect::Mouse(_) => "mouse",
            Effect::Mousepad(_) => "mousepad",
            Effect::Headset(_) => "headset",
            Effect::Keypad(_) => "keypad",
            Effect::ChromaLink(_) => "chromalink",
        }
    }
}

/// A device class that an application declares it drives.
#[derive(Clone, Copy, Debug, PartialEq, Eq, Structural, PartialOrd, Ord, Hash)]
pub enum SupportedDevice {
    Keyboard,
    Mouse,
    Mousepad,
    Headset,
    Keypad,
    ChromaLink,
}

/// The kind of application that opens the session.
#[derive(Clone, Copy, Debug, PartialEq, Eq, Structural, PartialOrd, Ord, Hash)]
pub enum Category {
    Application,
    Game,
}

/// Who wrote the application.
#[derive(Clone, Debug, PartialEq, Eq, PartialOrd, Ord, Hash)]
pub struct Author {
    pub name: &'static str,
    pub contact: &'static str,
}

/// The descriptor posted to open a session.
#[derive(Clone, Debug, PartialEq, Eq, PartialOrd, Ord, Hash)]
pub struct InitRequest {
    pub title: &'static str,
    pub description: &'static str,
    pub author: Author,
    pub device_supported: Vec<SupportedDevice>,
    pub category: Category,
}

impl InitRequest {
    /// Same descriptor: equal fields, and the same device list.
    pub open spec fn same_as(self, other: InitRequest) -> bool {
        &&& self.title == other.title
        &&& self.description == other.description
        &&& self.author == other.author
        &&& self.device_supported@ == other.device_supported@
        &&& self.category == other.category
    }

    /// A copy of the descriptor.
    pub fn duplicate(&self) -> (r: InitRequest)
        ensures
            r.same_as(*self),
    {
        let mut devices: Vec<SupportedDevice> = Vec::new();
        let mut i: usize = 0;
        while i < self.device_supported.len()
            invariant
                i <= self.device_supported.len(),
                devices@ == self.device_supported@.subrange(0, i as int),
            decreases self.device_supported.len() - i,
        {
            devices.push(self.device_supported[i]);
            i = i + 1;
        }
        assert(devices@ =~= self.device_supported@);
        InitRequest {
            title: self.title,
            description: self.description,
            author: Author { name: self.author.name, contact: self.author.contact },
            device_supported: devices,
            category: self.category,
        }
    }
}

} // verus!
