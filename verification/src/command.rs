//! The command log: every draw call of a frame is recorded as one tagged
//! command, replayed later for each dirty rectangle. The log is the unit the
//! damage tracker hashes: a command's hash covers its full identity, so a
//! changed rectangle, color, font or text all count as different content.

use vstd::prelude::*;

verus! {

use crate::color::Color;
use crate::geometry::Rect;
use crate::hash::{coord_bits, fnv_byte, fnv_coord, fnv_step, fnv_u32, fnv_word, FNV_SEED};
use vstd::string::StrSliceExecFns;

/// A font handle: the identity the damage hash uses for a font. Handles are
/// assigned by the cache and never reused.
pub type FontId = u64;

/// Largest number of commands a frame can record; later commands are dropped
/// (a soft failure, not a crash).
pub const MAX_COMMANDS: usize = 16384;

/// One recorded draw operation.
#[derive(Debug)]
pub enum Command {
    /// Replace the clip rectangle (already intersected with the screen).
    SetClip { rect: Rect },
    /// Fill a rectangle with a color.
    DrawRect { rect: Rect, color: Color },
    /// Draw an owned copy of a text run with the glyphs of a font.
    DrawText { font: FontId, text: String, rect: Rect, color: Color },
    /// Release a font once every dirty-rectangle pass has been replayed.
    FreeFont { font: FontId },
}

impl Command {
    /// The rectangle the command's damage footprint is computed from; a
    /// release has no footprint.
    pub open spec fn rect(self) -> Rect {
        match self {
            Command::SetClip { rect } => rect,
            Command::DrawRect { rect, .. } => rect,
            Command::DrawText { rect, .. } => rect,
            Command::FreeFont { .. } => Rect { x: 0, y: 0, width: 0, height: 0 },
        }
    }

    /// The variant tag folded into the command's hash.
    pub open spec fn tag(self) -> u8 {
        match self {
            Command::FreeFont { .. } => 0,
            Command::SetClip { .. } => 1,
            Command::DrawText { .. } => 2,
            Command::DrawRect { .. } => 3,
        }
    }
}

/// Folds a rectangle into the accumulator, coordinate by coordinate.
pub open spec fn hash_rect(h: u32, r: Rect) -> u32 {
    fnv_u32(
        fnv_u32(fnv_u32(fnv_u32(h, coord_bits(r.x)), coord_bits(r.y)), coord_bits(r.width)),
        coord_bits(r.height),
    )
}

/// Folds a color into the accumulator, channel by channel.
pub open spec fn hash_color(h: u32, c: Color) -> u32 {
    fnv_step(fnv_step(fnv_step(fnv_step(h, c.b), c.g), c.r), c.a)
}

/// Folds a font handle into the accumulator, low word first.
pub open spec fn hash_font_id(h: u32, id: FontId) -> u32 {
    fnv_u32(fnv_u32(h, (id % 0x1_0000_0000) as u32), (id / 0x1_0000_0000) as u32)
}

/// Folds the first `k` codepoints of a text into the accumulator.
pub open spec fn hash_chars_prefix(h: u32, s: Seq<char>, k: int) -> u32
    decreases k,
{
    if k <= 0 {
        h
    } else {
        fnv_u32(hash_chars_prefix(h, s, k - 1), s[k - 1] as u32)
    }
}

/// Folds a whole text into the accumulator.
pub open spec fn hash_chars(h: u32, s: Seq<char>) -> u32 {
    hash_chars_prefix(h, s, s.len() as int)
}

/// The FNV-1a fingerprint of a command's full identity: its variant tag,
/// rectangle and color, and for a text run also the font handle and the
/// codepoints drawn.
pub open spec fn cmd_hash(c: Command) -> u32 {
    let h = hash_rect(fnv_step(FNV_SEED, c.tag()), c.rect());
    match c {
        Command::SetClip { .. } => h,
        Command::DrawRect { color, .. } => hash_color(h, color),
        Command::DrawText { font, text, color, .. } => hash_chars(
            hash_font_id(hash_color(h, color), font),
            text@,
        ),
        Command::FreeFont { font } => hash_font_id(h, font),
    }
}

/// Computes the fingerprint of a command.
pub fn command_hash(c: &Command) -> (h: u32)
    ensures
        h == cmd_hash(*c),
{
    let (tag, rect): (u8, Rect) = match c {
        Command::SetClip { rect } => (1, *rect),
        Command::DrawRect { rect, .. } => (3, *rect),
        Command::DrawText { rect, .. } => (2, *rect),
        Command::FreeFont { .. } => (0, Rect { x: 0, y: 0, width: 0, height: 0 }),
    };
    let h = fnv_byte(FNV_SEED, tag);
    let h = fnv_coord(h, rect.x);
    let h = fnv_coord(h, rect.y);
    let h = fnv_coord(h, rect.width);
    let h = fnv_coord(h, rect.height);
    match c {
        Command::SetClip { .. } => h,
        Command::DrawRect { color, .. } => hash_color_exec(h, *color),
        Command::DrawText { font, text, color, .. } => {
            let h = hash_color_exec(h, *color);
            let h = hash_font_id_exec(h, *font);
            hash_text_exec(h, text.as_str())
        },
        Command::FreeFont { font } => hash_font_id_exec(h, *font),
    }
}

/// Folds a color into the accumulator.
fn hash_color_exec(h: u32, c: Color) -> (r: u32)
    ensures
        r == hash_color(h, c),
{
    fnv_byte(fnv_byte(fnv_byte(fnv_byte(h, c.b), c.g), c.r), c.a)
}

/// Folds a font handle into the accumulator.
fn hash_font_id_exec(h: u32, id: FontId) -> (r: u32)
    ensures
        r == hash_font_id(h, id),
{
    let lo = (id % 0x1_0000_0000) as u32;
    let hi = (id / 0x1_0000_0000) as u32;
    fnv_word(fnv_word(h, lo), hi)
}

/// Folds a text's codepoints into the accumulator.
fn hash_text_exec(h: u32, text: &str) -> (r: u32)
    ensures
        r == hash_chars(h, text@),
{
    let n = text.unicode_len();
    let mut acc = h;
    let mut k: usize = 0;
    while k < n
        invariant
            n == text@.len(),
            k <= n,
            acc == hash_chars_prefix(h, text@, k as int),
        decreases n - k,
    {
        let c = text.get_char(k);
        acc = fnv_word(acc, c as u32);
        k = k + 1;
    }
    acc
}

/// The append-only log of a frame's draw operations.
pub struct CommandBuffer {
    pub commands: Vec<Command>,
}

impl CommandBuffer {
    /// An empty log.
    pub fn new() -> (b: CommandBuffer)
        ensures
            b.commands@ =~= Seq::<Command>::empty(),
    {
        CommandBuffer { commands: Vec::new() }
    }

    /// Rewinds the log to empty, dropping the commands' owned data.
    pub fn clear(&mut self)
        ensures
            final(self).commands@ =~= Seq::<Command>::empty(),
    {
        self.commands.clear();
    }

    pub fn len(&self) -> (n: usize)
        ensures
            n == self.commands@.len(),
    {
        self.commands.len()
    }

    /// Appends a command. When the log is full the command is dropped and
    /// false is returned: the frame continues degraded.
    pub fn push(&mut self, c: Command) -> (recorded: bool)
        ensures
            recorded == (old(self).commands@.len() < MAX_COMMANDS),
            recorded ==> final(self).commands@ == old(self).commands@.push(c),
            !recorded ==> final(self).commands@ == old(self).commands@,
    {
        if self.commands.len() < MAX_COMMANDS {
            self.commands.push(c);
            true
        } else {
            false
        }
    }
}

} // verus!
