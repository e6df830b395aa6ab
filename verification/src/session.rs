//! The viewer session: current device, current page, and navigation
//! state, driven by messages as pure state transitions.
//!
//! The session owns the device contents as a plain byte sequence. The
//! presentation shell resolves device names to paths, reads bytes, and
//! feeds them in; every decision — paging, searching, address parsing,
//! mode switching — is made here. Switching to another device needs an
//! existence check that only the shell can perform, so a submit in load
//! mode changes nothing here; the shell calls [`DiskVisualizer::load_device`]
//! or [`DiskVisualizer::load_failed`] with the outcome.

use vstd::prelude::*;
use vstd::utf8::encode_utf8;

use crate::cursor::{hex_value, parse_hex_address, step_backward, step_forward, valid_hex_input};
use crate::page::Line;
use crate::render::page_matches;
use crate::scan::{scan_result, valid_pattern};
use crate::sector::{read_sector, window, window_available};

verus! {

/// What kind of request the session is currently collecting input for.
#[derive(Clone, Copy, Debug, PartialEq, Eq, Structural)]
pub enum Mode {
    /// Plain paging; no input is collected.
    Read,
    /// Collecting a hexadecimal byte address to jump to.
    Navigate,
    /// Collecting a term to search the device for.
    Find,
    /// Collecting a device name to switch to.
    Load,
}

/// One event of the presentation shell: a key press, a button, an edit
/// of the input field, or a submit.
#[derive(Clone, Debug)]
pub enum Message {
    /// Step one window forward.
    PageDown,
    /// Step one window backward.
    PageUp,
    /// Step one line forward.
    Down,
    /// Step one line backward.
    Up,
    /// Cancel input collection and return to plain reading.
    Esc,
    /// Enter navigate mode.
    Navigate,
    /// Enter find mode.
    Find,
    /// Enter load mode.
    Load,
    /// Replace the input buffer with the given text.
    InputChange(String),
    /// Act on the collected input according to the current mode.
    SubmitInput,
}

/// The prompt shown while collecting a search term.
pub open spec fn find_prompt() -> Seq<char> {
    "Enter the term to search for"@
}

/// The prompt shown while collecting a navigation address.
pub open spec fn navigate_prompt() -> Seq<char> {
    "Enter the position to navigate to, in hex"@
}

/// The prompt shown while collecting a device name.
pub open spec fn load_prompt() -> Seq<char> {
    "Enter the device to load (e.g. C:, sda)"@
}

/// The message surfaced when a navigation address does not parse.
pub open spec fn parse_error_text() -> Seq<char> {
    "The input could not be parsed as a hex address"@
}

/// The message surfaced when a requested device does not exist.
pub open spec fn device_missing_text() -> Seq<char> {
    "The requested device was not found"@
}

/// The viewer session.
pub struct DiskVisualizer {
    /// The bytes of the currently loaded device.
    pub device: Vec<u8>,
    /// The rendered window the viewer currently shows.
    pub current_page: Vec<Line>,
    /// The byte offset of the current window.
    pub start: u64,
    /// The prompt or status message of the input field.
    pub placeholder: String,
    /// The text collected in the input field.
    pub string_input: String,
    /// The kind of request input is collected for.
    pub operation_mode: Mode,
}

/// The fields of `post` other than the page, the offset and the device
/// equal those of `pre`.
pub open spec fn same_input_state(pre: DiskVisualizer, post: DiskVisualizer) -> bool {
    &&& post.placeholder == pre.placeholder
    &&& post.string_input == pre.string_input
    &&& post.operation_mode == pre.operation_mode
}

/// The session stepped to offset `o`: when a full window is available
/// there, the page now renders that window and the offset is `o`, with
/// everything else unchanged; otherwise the whole session is unchanged.
pub open spec fn stepped_to(pre: DiskVisualizer, post: DiskVisualizer, o: u64) -> bool {
    if window_available(pre.device@, o as int) {
        &&& post.start == o
        &&& page_matches(post.current_page@, window(pre.device@, o as int), o as nat)
        &&& post.device == pre.device
        &&& same_input_state(pre, post)
    } else {
        post == pre
    }
}

/// The session entered input-collecting mode `m`: the input buffer is
/// cleared, the prompt is set, and the page, offset and device stay.
pub open spec fn entered_mode(
    pre: DiskVisualizer,
    post: DiskVisualizer,
    m: Mode,
    prompt: Seq<char>,
) -> bool {
    &&& post.operation_mode == m
    &&& post.string_input@.len() == 0
    &&& post.placeholder@ == prompt
    &&& post.device == pre.device
    &&& post.current_page == pre.current_page
    &&& post.start == pre.start
}

impl DiskVisualizer {
    /// The current page renders the window at the current offset, or the
    /// session shows the empty page at offset zero (a device too short
    /// for even one window).
    pub open spec fn wf(self) -> bool {
        ||| (window_available(self.device@, self.start as int) && page_matches(
            self.current_page@,
            window(self.device@, self.start as int),
            self.start as nat,
        ))
        ||| (self.current_page@.len() == 0 && self.start == 0)
    }

    /// Opens a session on the given device bytes, showing the first
    /// window in plain reading mode.
    pub fn new(device: Vec<u8>) -> (v: DiskVisualizer)
        ensures
            v.wf(),
            v.device@ == device@,
            v.start == 0,
            v.operation_mode == Mode::Read,
            v.string_input@.len() == 0,
            v.placeholder@.len() == 0,
            window_available(device@, 0) ==> page_matches(
                v.current_page@,
                window(device@, 0),
                0,
            ),
            !window_available(device@, 0) ==> v.current_page@.len() == 0,
    {
        let mut v = DiskVisualizer {
            device,
            current_page: Vec::new(),
            start: 0,
            placeholder: String::new(),
            string_input: String::new(),
            operation_mode: Mode::Read,
        };
        v.load_page(0);
        v
    }

    /// Reads the window at byte offset `start` and shows it: on success
    /// the page and offset are replaced together; when no full window
    /// remains there, the session is left exactly as it was.
    pub fn load_page(&mut self, start: u64)
        requires
            old(self).wf(),
        ensures
            final(self).wf(),
            stepped_to(*old(self), *final(self), start),
    {
        match read_sector(&self.device, start) {
            Ok(page) => {
                self.current_page = page;
                self.start = start;
            },
            Err(_) => {},
        }
    }

    /// Scans the current device for the byte encoding of the collected
    /// input. Returns the rendered window containing the first reported
    /// match and its sector-aligned offset; `None` when the pattern is
    /// empty or oversize, when the scan runs off the device, or when no
    /// full window remains at the aligned offset. The session itself is
    /// not changed.
    pub fn find_term(&mut self) -> (r: Option<(Vec<Line>, u64)>)
        ensures
            *final(self) == *old(self),
            match r {
                Some((page, start)) => {
                    let pat = encode_utf8(old(self).string_input@);
                    &&& valid_pattern(pat)
                    &&& scan_result(old(self).device@, pat) == Some(start as int)
                    &&& window_available(old(self).device@, start as int)
                    &&& page_matches(page@, window(old(self).device@, start as int), start as nat)
                },
                None => {
                    let pat = encode_utf8(old(self).string_input@);
                    ||| !valid_pattern(pat)
                    ||| (match scan_result(old(self).device@, pat) {
                        Some(a) => !window_available(old(self).device@, a),
                        None => true,
                    })
                },
            },
    {
        match crate::scan::find_term(&self.device, self.string_input.as_str().as_bytes()) {
            Ok(found) => Some(found),
            Err(_) => None,
        }
    }

    /// Swaps in the bytes of another device, verified to exist by the
    /// caller, and shows its first window at offset zero. The collected
    /// input and the mode stay, as does the prompt.
    pub fn load_device(&mut self, device: Vec<u8>)
        ensures
            final(self).wf(),
            final(self).device@ == device@,
            final(self).start == 0,
            same_input_state(*old(self), *final(self)),
            window_available(device@, 0) ==> page_matches(
                final(self).current_page@,
                window(device@, 0),
                0,
            ),
            !window_available(device@, 0) ==> final(self).current_page@.len() == 0,
    {
        self.device = device;
        self.start = 0;
        self.current_page = Vec::new();
        self.load_page(0);
    }

    /// Records that a requested device does not exist: surfaces a
    /// message and clears the input, keeping the page, the offset and
    /// the current device.
    pub fn load_failed(&mut self)
        requires
            old(self).wf(),
        ensures
            final(self).wf(),
            final(self).placeholder@ == device_missing_text(),
            final(self).string_input@.len() == 0,
            final(self).device == old(self).device,
            final(self).current_page == old(self).current_page,
            final(self).start == old(self).start,
            final(self).operation_mode == old(self).operation_mode,
    {
        self.placeholder = "The requested device was not found".to_owned();
        self.string_input = String::new();
    }

    /// Applies one event to the session, as a pure state transition:
    /// paging steps forward and backward (backward clamps to offset
    /// zero), mode changes, input edits, and submits. A submit acts
    /// according to the mode: in find mode a non-empty input is searched
    /// for and a hit replaces page and offset together; in navigate mode
    /// the input is parsed as a hex address and jumped to; in load mode
    /// and plain reading nothing changes here (loading a device needs
    /// the shell's existence check).
    pub fn update(&mut self, message: Message)
        requires
            old(self).wf(),
        ensures
            final(self).wf(),
            match message {
                Message::PageDown => {
                    if old(self).start + 512 <= u64::MAX {
                        stepped_to(*old(self), *final(self), (old(self).start + 512) as u64)
                    } else {
                        *final(self) == *old(self)
                    }
                },
                Message::PageUp => {
                    if old(self).start == 0 {
                        *final(self) == *old(self)
                    } else {
                        stepped_to(
                            *old(self),
                            *final(self),
                            crate::cursor::stepped_back(old(self).start, 512),
                        )
                    }
                },
                Message::Down => {
                    if old(self).start + 16 <= u64::MAX {
                        stepped_to(*old(self), *final(self), (old(self).start + 16) as u64)
                    } else {
                        *final(self) == *old(self)
                    }
                },
                Message::Up => {
                    if old(self).start == 0 {
                        *final(self) == *old(self)
                    } else {
                        stepped_to(
                            *old(self),
                            *final(self),
                            crate::cursor::stepped_back(old(self).start, 16),
                        )
                    }
                },
                Message::Esc => {
                    &&& final(self).operation_mode == Mode::Read
                    &&& final(self).string_input@.len() == 0
                    &&& final(self).placeholder == old(self).placeholder
                    &&& final(self).device == old(self).device
                    &&& final(self).current_page == old(self).current_page
                    &&& final(self).start == old(self).start
                },
                Message::Find => entered_mode(*old(self), *final(self), Mode::Find, find_prompt()),
                Message::Navigate => entered_mode(
                    *old(self),
                    *final(self),
                    Mode::Navigate,
                    navigate_prompt(),
                ),
                Message::Load => entered_mode(*old(self), *final(self), Mode::Load, load_prompt()),
                Message::InputChange(s) => {
                    &&& final(self).string_input@ == s@
                    &&& final(self).placeholder == old(self).placeholder
                    &&& final(self).operation_mode == old(self).operation_mode
                    &&& final(self).device == old(self).device
                    &&& final(self).current_page == old(self).current_page
                    &&& final(self).start == old(self).start
                },
                Message::SubmitInput => match old(self).operation_mode {
                    Mode::Read => *final(self) == *old(self),
                    Mode::Load => *final(self) == *old(self),
                    Mode::Find => {
                        let pat = encode_utf8(old(self).string_input@);
                        if old(self).string_input@.len() == 0 {
                            *final(self) == *old(self)
                        } else if valid_pattern(pat) {
                            match scan_result(old(self).device@, pat) {
                                Some(a) => stepped_to(*old(self), *final(self), a as u64),
                                None => *final(self) == *old(self),
                            }
                        } else {
                            *final(self) == *old(self)
                        }
                    },
                    Mode::Navigate => {
                        let bs = encode_utf8(old(self).string_input@);
                        if valid_hex_input(bs) {
                            stepped_to(*old(self), *final(self), hex_value(bs) as u64)
                        } else {
                            &&& final(self).placeholder@ == parse_error_text()
                            &&& final(self).string_input == old(self).string_input
                            &&& final(self).operation_mode == old(self).operation_mode
                            &&& final(self).device == old(self).device
                            &&& final(self).current_page == old(self).current_page
                            &&& final(self).start == old(self).start
                        }
                    },
                },
            },
    {
        match message {
            Message::PageDown => {
                match step_forward(self.start, 512) {
                    Some(target) => self.load_page(target),
                    None => {},
                }
            },
            Message::PageUp => {
                if self.start != 0 {
                    let target = step_backward(self.start, 512);
                    self.load_page(target);
                }
            },
            Message::Down => {
                match step_forward(self.start, 16) {
                    Some(target) => self.load_page(target),
                    None => {},
                }
            },
            Message::Up => {
                if self.start != 0 {
                    let target = step_backward(self.start, 16);
                    self.load_page(target);
                }
            },
            Message::Esc => {
                self.operation_mode = Mode::Read;
                self.string_input = String::new();
            },
            Message::Find => {
                self.operation_mode = Mode::Find;
                self.string_input = String::new();
                self.placeholder = "Enter the term to search for".to_owned();
            },
            Message::Navigate => {
                self.operation_mode = Mode::Navigate;
                self.string_input = String::new();
                self.placeholder = "Enter the position to navigate to, in hex".to_owned();
            },
            Message::Load => {
                self.operation_mode = Mode::Load;
                self.string_input = String::new();
                self.placeholder = "Enter the device to load (e.g. C:, sda)".to_owned();
            },
            Message::InputChange(s) => {
                self.string_input = s;
            },
            Message::SubmitInput => {
                match self.operation_mode {
                    Mode::Read => {},
                    Mode::Load => {},
                    Mode::Find => {
                        if !self.string_input.as_str().is_empty() {
                            proof {
                                let pat = encode_utf8(old(self).string_input@);
                                if valid_pattern(pat) {
                                    match crate::scan::find_raw(old(self).device@, pat) {
                                        Some(raw) => {
                                            crate::scan::lemma_find_sound(
                                                old(self).device@,
                                                pat,
                                                raw,
                                            );
                                            assert(vstd::std_specs::vec::spec_vec_len(
                                                &old(self).device,
                                            ) == old(self).device@.len());
                                        },
                                        None => {},
                                    }
                                }
                            }
                            match self.find_term() {
                                Some((page, start)) => {
                                    self.current_page = page;
                                    self.start = start;
                                },
                                None => {},
                            }
                        }
                    },
                    Mode::Navigate => {
                        match parse_hex_address(self.string_input.as_str().as_bytes()) {
                            Ok(target) => self.load_page(target),
                            Err(_) => {
                                self.placeholder =
                                    "The input could not be parsed as a hex address".to_owned();
                            },
                        }
                    },
                }
            },
        }
    }
}

} // verus!
