//! The control protocol: text commands line by line, and a package loader
//! that takes a length-prefixed byte stream.

use vstd::prelude::*;
use crate::media::{stored_name, str_of_utf8};
use crate::Offset;

pub mod commands;
pub mod media;
use crate::decimal::{parse_i8, push_str, spec_parse_i8};
use vstd::string::StringSliceAdditionalSpecFns;

verus! {

/// The position of the first space in `s` at or after `i`; the length of `s`
/// where there is none.
pub open spec fn first_space(s: Seq<char>, i: int) -> int
    decreases s.len() - i,
{
    if i >= s.len() {
        s.len() as int
    } else if s[i] == ' ' {
        i
    } else {
        first_space(s, i + 1)
    }
}

/// Part `k` of `s[from..]` split at single spaces, where there is one.
pub open spec fn space_part(s: Seq<char>, from: int, k: nat) -> Option<Seq<char>>
    decreases k,
{
    let e = first_space(s, from);
    if k == 0 {
        Some(s.subrange(from, e))
    } else if e >= s.len() {
        None
    } else {
        space_part(s, e + 1, (k - 1) as nat)
    }
}

/// The value of part `k` of `s`, where it is there and is an `i8`.
pub open spec fn part_value(s: Seq<char>, k: nat) -> Option<i8> {
    match space_part(s, 0, k) {
        Some(p) => spec_parse_i8(p),
        None => None,
    }
}

/// The value of part `j` where it is among the first `k` parts.
pub open spec fn prefix_value(s: Seq<char>, j: nat, k: nat) -> Option<i8> {
    if j < k { part_value(s, j) } else { None }
}

/// The values that the first `k` parts of `s` give (see `decoded_values`).
pub open spec fn decode_prefix(s: Seq<char>, k: nat) -> Seq<i8> {
    let a = match prefix_value(s, 0, k) {
        Some(v) => v,
        None => 0i8,
    };
    let ew = match prefix_value(s, 1, k) {
        Some(v) => v,
        None => a,
    };
    let south = match prefix_value(s, 2, k) {
        Some(v) => v,
        None => a,
    };
    let west = match prefix_value(s, 3, k) {
        Some(v) => v,
        None => ew,
    };
    seq![a, ew, south, west]
}

/// The four values (north, east, south, west) of a CSS-like list of one to
/// four numbers: one sets all four, a second sets east and west, a third
/// south, a fourth west. Parts that are no number leave the value before.
pub open spec fn decoded_values(s: Seq<char>) -> Seq<i8> {
    decode_prefix(s, 4)
}

proof fn lemma_first_space_bounds(s: Seq<char>, i: int)
    requires
        0 <= i <= s.len(),
    ensures
        i <= first_space(s, i) <= s.len(),
        first_space(s, i) < s.len() ==> s[first_space(s, i)] == ' ',
    decreases s.len() - i,
{
    if i < s.len() && s[i] != ' ' {
        lemma_first_space_bounds(s, i + 1);
    }
}

/// The first space in `text` at or after `i`.
fn find_space(text: &str, i: usize) -> (r: usize)
    requires
        i <= text@.len(),
    ensures
        r == first_space(text@, i as int),
        i <= r <= text@.len(),
{
    let n = text.unicode_len();
    let mut j = i;
    while j < n && text.get_char(j) != ' '
        invariant
            n == text@.len(),
            i <= j <= n,
            first_space(text@, j as int) == first_space(text@, i as int),
        decreases n - j,
    {
        j += 1;
    }
    proof {
        lemma_first_space_bounds(text@, i as int);
    }
    j
}

/// Decodes a list of one to four space-separated offsets into north, east,
/// south and west.
pub fn decode_values(text: &str) -> (r: [Offset; 4])
    ensures
        r@ == decoded_values(text@),
{
    let n = text.unicode_len();
    let mut ret: [Offset; 4] = [0, 0, 0, 0];
    let mut pos: usize = 0;
    let mut k: usize = 0;
    let ghost s = text@;
    assert(ret@ =~= decode_prefix(s, 0));
    while k < 4
        invariant
            n == s.len(),
            s == text@,
            k <= 4,
            pos <= n,
            forall|j: nat| space_part(s, 0, (k + j) as nat) == #[trigger] space_part(s, pos as int, j),
            ret@ == decode_prefix(s, k as nat),
        decreases 4 - k,
    {
        let e = find_space(text, pos);
        let part = text.substring_char(pos, e);
        assert(space_part(s, 0, (k + 0) as nat) == space_part(s, pos as int, 0));
        assert(part@ == s.subrange(pos as int, e as int));
        match parse_i8(part) {
            Some(v) => {
                if k == 0 {
                    ret = [v, v, v, v];
                } else if k == 1 {
                    ret[1] = v;
                    ret[3] = v;
                } else if k == 2 {
                    ret[2] = v;
                } else {
                    ret[3] = v;
                }
            },
            None => {},
        }
        assert(ret@ =~= decode_prefix(s, (k + 1) as nat));
        if e >= n {
            proof {
                assert forall|j: nat| j >= 1 implies #[trigger] space_part(s, 0, (k + j) as nat) is None by {
                    assert(space_part(s, 0, (k + j) as nat) == space_part(s, pos as int, j));
                }
                assert(space_part(s, 0, (k + 1) as nat) is None);
                assert(space_part(s, 0, (k + 2) as nat) is None);
                assert(space_part(s, 0, (k + 3) as nat) is None);
                assert(decode_prefix(s, (k + 1) as nat) =~= decode_prefix(s, 4));
            }
            return ret;
        }
        proof {
            assert forall|j: nat| space_part(s, 0, (k + 1 + j) as nat) == #[trigger] space_part(s, e + 1, j) by {
                assert(space_part(s, 0, (k + (j + 1)) as nat) == space_part(s, pos as int, (j + 1) as nat));
            }
        }
        pos = e + 1;
        k += 1;
    }
    ret
}


#[derive(PartialEq, Eq, Structural, Copy, Clone)]
pub enum ControlMode {
    LineMode,
    PKGMode,
}

/// The outcome of a package upload.
#[derive(PartialEq, Eq, Structural, Copy, Clone)]
pub enum LoaderRet {
    Success,
    CTR,
    Aborted,
    NotEnoughSpace,
    PKGFailed,
}

impl LoaderRet {
    pub open spec fn spec_code(self) -> u8 {
        match self {
            LoaderRet::Success => 0,
            LoaderRet::CTR => 1,
            LoaderRet::Aborted => 2,
            LoaderRet::NotEnoughSpace => 3,
            LoaderRet::PKGFailed => 4,
        }
    }

    /// The number the protocol reports for the outcome.
    pub fn code(self) -> (r: u8)
        ensures
            r == self.spec_code(),
    {
        match self {
            LoaderRet::Success => 0,
            LoaderRet::CTR => 1,
            LoaderRet::Aborted => 2,
            LoaderRet::NotEnoughSpace => 3,
            LoaderRet::PKGFailed => 4,
        }
    }
}

/// The upload state: the four length bytes come first (state 0 to 3), then
/// the data (state 4).
struct Loader {
    state: u8,
    size: usize,
    position: usize,
    error: LoaderRet,
}

/// What the caller does with one byte of an upload.
#[derive(PartialEq, Eq, Structural, Copy, Clone)]
pub enum PkgAction {
    /// Nothing more.
    Nothing,
    /// Report the outcome `code` with the prefix `pkg`.
    Report(u8),
    /// Hand the byte to the loader as the byte at `pos`.
    Data(usize),
    /// Hand the byte to the loader as the byte at `pos`, end the upload and
    /// pass its outcome to `finish_loader`.
    LastData(usize),
}

/// The result code of a command that was carried out.
pub const RET_OK: u8 = 0;
/// The result code of a line that no one took.
pub const RET_UNKNOWN_COMMAND: u8 = 1;

/// What a line of the protocol asks for.
#[derive(PartialEq, Eq, Structural, Copy, Clone)]
pub enum LineCommand {
    /// `info`: the name, version and features of the build.
    Info,
    /// `pkg`: an upload starts.
    Pkg,
    /// Anything else: a command for the surface or a listener.
    Other,
}

/// What an upload goes through: the mode and the loader's state, length,
/// position and error.
pub struct UploadView {
    pub mode: ControlMode,
    pub state: u8,
    pub size: usize,
    pub position: usize,
    pub error: LoaderRet,
}

/// One byte of an upload on `v`, with `capacity` the room the loader
/// offers: the next view and what the caller does with the byte.
pub open spec fn pkg_next(v: UploadView, byte: u8, capacity: usize) -> (UploadView, PkgAction) {
    if v.state < 3 {
        let mult: int = if v.state == 0 { 1 } else if v.state == 1 { 256 } else { 65536 };
        (UploadView { state: (v.state + 1) as u8, size: (v.size + byte * mult) as usize, ..v }, PkgAction::Nothing)
    } else if v.state == 3 {
        if capacity > 0 {
            (UploadView { state: 4, size: (v.size + byte * 16777216) as usize, ..v }, PkgAction::Report(1))
        } else {
            (UploadView { error: LoaderRet::NotEnoughSpace, ..v }, PkgAction::Report(3))
        }
    } else {
        let p = v.position;
        if p + 1 >= v.size {
            (UploadView { mode: ControlMode::LineMode, state: 0, size: 0, position: (p + 1) as usize, ..v }, PkgAction::LastData(p))
        } else {
            (UploadView { position: (p + 1) as usize, ..v }, PkgAction::Data(p))
        }
    }
}

/// The bytes `bytes` of an upload taken one by one from `v`: the view after
/// them and the actions they give.
pub open spec fn pkg_run(v: UploadView, bytes: Seq<u8>, capacity: usize) -> (UploadView, Seq<PkgAction>)
    decreases bytes.len(),
{
    if bytes.len() == 0 {
        (v, Seq::empty())
    } else {
        let (v1, a) = pkg_next(v, bytes[0], capacity);
        let (v2, rest) = pkg_run(v1, bytes.drop_first(), capacity);
        (v2, seq![a] + rest)
    }
}

/// The length that the first four bytes of an upload announce, low byte
/// first.
pub open spec fn announced(b: Seq<u8>) -> int {
    b[0] + 256 * b[1] + 65536 * b[2] + 16777216 * b[3]
}

/// The actions of the data of an upload of `n` bytes from position `p` on.
pub open spec fn data_actions(p: int, n: int) -> Seq<PkgAction> {
    Seq::new((n - 1 - p) as nat, |k: int| PkgAction::Data((p + k) as usize)).push(PkgAction::LastData((n - 1) as usize))
}

proof fn lemma_data_run(v: UploadView, d: Seq<u8>, capacity: usize)
    requires
        v.state == 4,
        v.mode == ControlMode::PKGMode,
        0 <= v.position < v.size,
        d.len() == v.size - v.position,
    ensures
        pkg_run(v, d, capacity) == (UploadView { mode: ControlMode::LineMode, state: 0, size: 0,
            position: v.size, ..v }, data_actions(v.position as int, v.size as int)),
    decreases d.len(),
{
    let p = v.position;
    let fin = UploadView { mode: ControlMode::LineMode, state: 0, size: 0, position: v.size, ..v };
    if p + 1 >= v.size {
        assert(d.drop_first().len() == 0);
        assert(pkg_next(v, d[0], capacity) == (fin, PkgAction::LastData(p)));
        assert(pkg_run(fin, d.drop_first(), capacity) == (fin, Seq::<PkgAction>::empty()));
        assert(data_actions(p as int, v.size as int) =~= seq![PkgAction::LastData(p)] + Seq::<PkgAction>::empty());
    } else {
        let v1 = UploadView { position: (p + 1) as usize, ..v };
        assert(pkg_next(v, d[0], capacity) == (v1, PkgAction::Data(p)));
        lemma_data_run(v1, d.drop_first(), capacity);
        assert(data_actions(p as int, v.size as int) =~= seq![PkgAction::Data(p)] + data_actions(p + 1, v.size as int));
    }
}

/// An upload started afresh (state 0, length 0) that announces `n` bytes, at
/// least one, and finds room takes exactly those `n` bytes: three length
/// bytes give nothing, the fourth clear-to-send, the data bytes their
/// positions, the last one ends the upload and goes back to line mode.
pub proof fn lemma_upload_takes_announced_length(v: UploadView, b: Seq<u8>, capacity: usize)
    requires
        v.mode == ControlMode::PKGMode,
        v.state == 0,
        v.size == 0,
        v.position == 0,
        capacity > 0,
        b.len() >= 4,
        announced(b) >= 1,
        b.len() == 4 + announced(b),
    ensures
        pkg_run(v, b, capacity) == (UploadView { mode: ControlMode::LineMode, state: 0, size: 0,
            position: announced(b) as usize, ..v },
            seq![PkgAction::Nothing, PkgAction::Nothing, PkgAction::Nothing, PkgAction::Report(1)]
                + data_actions(0, announced(b))),
{
    let n = announced(b);
    let b1 = b.drop_first();
    let b2 = b1.drop_first();
    let b3 = b2.drop_first();
    let b4 = b3.drop_first();
    let v1 = UploadView { state: 1, size: b[0] as usize, ..v };
    let v2 = UploadView { state: 2, size: (b[0] + 256 * b[1]) as usize, ..v };
    let v3 = UploadView { state: 3, size: (b[0] + 256 * b[1] + 65536 * b[2]) as usize, ..v };
    let v4 = UploadView { state: 4, size: n as usize, ..v };
    assert(b[0] + 256 * b[1] + 65536 * b[2] + 16777216 * b[3] < 0x1_0000_0000) by (nonlinear_arith)
        requires
            b[0] < 256,
            b[1] < 256,
            b[2] < 256,
            b[3] < 256,
    ;
    assert(pkg_next(v, b[0], capacity) == (v1, PkgAction::Nothing));
    assert(pkg_next(v1, b1[0], capacity) == (v2, PkgAction::Nothing));
    assert(pkg_next(v2, b2[0], capacity) == (v3, PkgAction::Nothing));
    assert(pkg_next(v3, b3[0], capacity) == (v4, PkgAction::Report(1)));
    lemma_data_run(v4, b4, capacity);
    let fin = UploadView { mode: ControlMode::LineMode, state: 0, size: 0, position: n as usize, ..v };
    assert(pkg_run(v3, b3, capacity) == (fin, seq![PkgAction::Report(1)] + data_actions(0, n)));
    assert(pkg_run(v2, b2, capacity) == (fin, seq![PkgAction::Nothing] + (seq![PkgAction::Report(1)] + data_actions(0, n))));
    assert(pkg_run(v1, b1, capacity) == (fin, seq![PkgAction::Nothing] + (seq![PkgAction::Nothing] + (seq![PkgAction::Report(1)] + data_actions(0, n)))));
    assert(seq![PkgAction::Nothing] + (seq![PkgAction::Nothing] + (seq![PkgAction::Nothing] + (seq![PkgAction::Report(1)] + data_actions(0, n))))
        =~= seq![PkgAction::Nothing, PkgAction::Nothing, PkgAction::Nothing, PkgAction::Report(1)] + data_actions(0, n));
}

pub struct Control {
    pub mode: ControlMode,
    loader: Loader,
}

impl Default for Control {
    fn default() -> (r: Self)
        ensures
            r.wf(),
            r.mode_of() == ControlMode::LineMode,
            r.loader_state() == 0 && r.loader_size() == 0 && r.loader_position() == 0,
            r.loader_error() == LoaderRet::Success,
    {
        Control { mode: ControlMode::LineMode, loader: Loader { state: 0, size: 0, position: 0, error: LoaderRet::Success } }
    }
}

impl Control {
    /// The upload state is consistent: the length read so far fits the bytes
    /// taken, and the data position stays within the length.
    pub closed spec fn wf(&self) -> bool {
        &&& self.loader.state <= 4
        &&& self.mode == ControlMode::PKGMode && self.loader.state < 4 ==> self.loader.position == 0
        &&& self.loader.state == 0 ==> self.loader.size == 0
        &&& self.loader.state == 1 ==> self.loader.size < 256
        &&& self.loader.state == 2 ==> self.loader.size < 65536
        &&& self.loader.state == 3 ==> self.loader.size < 16777216
        &&& self.loader.state == 4 ==> self.loader.size < 4294967296 && (self.loader.position < self.loader.size || self.loader.position == 0)
    }

    /// The part of the control that an upload goes through.
    pub closed spec fn upload_view(&self) -> UploadView {
        UploadView {
            mode: self.mode,
            state: self.loader.state,
            size: self.loader.size,
            position: self.loader.position,
            error: self.loader.error,
        }
    }

    pub closed spec fn mode_of(&self) -> ControlMode {
        self.mode
    }

    pub closed spec fn loader_state(&self) -> u8 {
        self.loader.state
    }

    pub closed spec fn loader_size(&self) -> usize {
        self.loader.size
    }

    pub closed spec fn loader_position(&self) -> usize {
        self.loader.position
    }

    pub closed spec fn loader_error(&self) -> LoaderRet {
        self.loader.error
    }

    /// Takes a line of the protocol: `info` and other lines leave the control
    /// as it is; `pkg` starts an upload, in package mode.
    pub fn take_line(&mut self, line: &str) -> (r: LineCommand)
        requires
            old(self).wf(),
        ensures
            final(self).wf(),
            r == if line@ == "info"@ { LineCommand::Info } else if line@ == "pkg"@ { LineCommand::Pkg } else { LineCommand::Other },
            r != LineCommand::Pkg ==> *final(self) == *old(self),
            r == LineCommand::Pkg ==> {
                &&& final(self).mode_of() == ControlMode::PKGMode
                &&& final(self).loader_position() == 0
                &&& final(self).loader_size() == 0
                &&& final(self).loader_state() == old(self).loader_state()
                &&& final(self).loader_error() == old(self).loader_error()
            },
    {
        if crate::decimal::str_is(line, "info") {
            LineCommand::Info
        } else if crate::decimal::str_is(line, "pkg") {
            self.start_pkg();
            LineCommand::Pkg
        } else {
            LineCommand::Other
        }
    }

    /// Takes the line `buf[from..end]` of the protocol (its text where it is
    /// UTF-8, else the empty text), as `take_line` does; gives the command
    /// and the text.
    pub fn take_line_bytes<'a>(&mut self, buf: &'a [u8], from: usize, end: usize) -> (r: (LineCommand, &'a str))
        requires
            old(self).wf(),
            from <= end <= buf@.len(),
        ensures
            final(self).wf(),
            r.1.spec_bytes() == stored_name(buf@.subrange(from as int, end as int)),
            r.0 == if r.1@ == "info"@ { LineCommand::Info } else if r.1@ == "pkg"@ { LineCommand::Pkg } else { LineCommand::Other },
            r.0 != LineCommand::Pkg ==> *final(self) == *old(self),
            r.0 == LineCommand::Pkg ==> {
                &&& final(self).mode_of() == ControlMode::PKGMode
                &&& final(self).loader_position() == 0
                &&& final(self).loader_size() == 0
                &&& final(self).loader_state() == old(self).loader_state()
                &&& final(self).loader_error() == old(self).loader_error()
            },
    {
        let line = str_of_utf8(&buf[from..end]);
        let c = self.take_line(line);
        (c, line)
    }

    /// Whether an upload is under way or has failed.
    pub fn is_loader_busy(&self) -> (r: bool)
        ensures
            r == (self.loader_error() != LoaderRet::Success || self.loader_state() != 0),
    {
        match self.loader.error {
            LoaderRet::Success => self.loader.state != 0,
            _ => true,
        }
    }

    /// Clear to send: the length is taken and no data has come yet.
    pub fn get_loader_cts(&self) -> (r: bool)
        ensures
            r == (self.loader_state() == 4 && self.loader_position() == 0),
    {
        self.loader.state == 4 && self.loader.position == 0
    }

    /// How far the upload has come, scaled to `range`; none where no upload
    /// runs.
    pub fn get_loader_progress(&self, range: usize) -> (r: Option<usize>)
        requires
            self.loader_state() != 0 ==> self.loader_size() > 0 && range * self.loader_position() <= usize::MAX,
        ensures
            self.loader_state() == 0 ==> r.is_none(),
            self.loader_state() != 0 ==> r == Some((range * self.loader_position() / self.loader_size() as int) as usize),
    {
        if self.loader.state == 0 {
            None
        } else {
            Some(range * self.loader.position / self.loader.size)
        }
    }

    /// The progress that the loader screen shows, out of 255: none where no
    /// upload with a known length runs, or where its position has passed
    /// the length.
    pub fn loader_progress(&self) -> (r: Option<u8>)
        ensures
            r.is_some() <==> (self.loader_state() != 0 && self.loader_size() > 0
                && self.loader_position() <= self.loader_size()),
            r matches Some(p) ==> p == 255 * self.loader_position() / self.loader_size() as int,
    {
        if self.loader.state == 0 || self.loader.size == 0 || self.loader.position > self.loader.size {
            None
        } else {
            let pos = self.loader.position as u128;
            let size = self.loader.size as u128;
            assert(255 * pos <= 255 * size) by (nonlinear_arith)
                requires
                    pos <= size,
            ;
            assert((255 * pos) as int / (size as int) <= 255) by (nonlinear_arith)
                requires
                    pos <= size,
                    size > 0,
            ;
            assert(255 * size <= 255 * 0x1_0000_0000_0000_0000u128) by (nonlinear_arith)
                requires
                    size < 0x1_0000_0000_0000_0000u128,
            ;
            Some((255 * pos / size) as u8)
        }
    }

    pub fn get_loader_error(&self) -> (r: LoaderRet)
        ensures
            r == self.loader_error(),
    {
        self.loader.error
    }

    /// Stops an upload: back to line mode, marked as aborted.
    pub fn abort_loader(&mut self)
        ensures
            final(self).wf(),
            final(self).mode_of() == ControlMode::LineMode,
            final(self).loader_state() == 0,
            final(self).loader_position() == 0,
            final(self).loader_size() == 0,
            final(self).loader_error() == LoaderRet::Aborted,
    {
        self.mode = ControlMode::LineMode;
        self.loader.state = 0;
        self.loader.position = 0;
        self.loader.size = 0;
        self.loader.error = LoaderRet::Aborted;
    }

    /// Switches to package mode for an upload (the command `pkg`).
    pub fn start_pkg(&mut self)
        requires
            old(self).wf(),
        ensures
            final(self).wf(),
            final(self).mode_of() == ControlMode::PKGMode,
            final(self).loader_position() == 0,
            final(self).loader_size() == 0,
            final(self).loader_state() == old(self).loader_state(),
            final(self).loader_error() == old(self).loader_error(),
    {
        self.mode = ControlMode::PKGMode;
        self.loader.position = 0;
        self.loader.size = 0;
    }

    /// The length announced for the upload, where the loader has to be asked
    /// for room before the next byte.
    pub fn loader_wants_start(&self) -> (r: Option<usize>)
        ensures
            r == if self.loader_state() == 3 { Some(self.loader_size()) } else { None },
    {
        if self.loader.state == 3 { Some(self.loader.size) } else { None }
    }

    /// Takes one byte of an upload. The first three bytes are the low bytes
    /// of the length; at the fourth the loader has been asked for room
    /// (`capacity`, 0 for none): with room, the length is complete and
    /// clear-to-send is reported, else there is not enough space. Then every
    /// byte goes to the loader until the length is reached.
    pub fn pkg_byte(&mut self, byte: u8, capacity: usize) -> (r: PkgAction)
        requires
            old(self).wf(),
            old(self).mode_of() == ControlMode::PKGMode,
        ensures
            final(self).wf(),
            final(self).mode_of() == if r is LastData { ControlMode::LineMode } else { old(self).mode_of() },
            (final(self).upload_view(), r) == pkg_next(old(self).upload_view(), byte, capacity),
            old(self).loader_state() < 3 ==> {
                &&& r == PkgAction::Nothing
                &&& final(self).loader_state() == old(self).loader_state() + 1
                &&& final(self).loader_size() == old(self).loader_size() + byte as int * (if old(self).loader_state() == 0 { 1int } else if old(self).loader_state() == 1 { 256int } else { 65536int })
                &&& final(self).loader_position() == old(self).loader_position()
                &&& final(self).loader_error() == old(self).loader_error()
            },
            old(self).loader_state() == 3 && capacity > 0 ==> {
                &&& r == PkgAction::Report(LoaderRet::CTR.spec_code())
                &&& final(self).loader_state() == 4
                &&& final(self).loader_size() == old(self).loader_size() + byte as int * 16777216
                &&& final(self).loader_position() == old(self).loader_position()
                &&& final(self).loader_error() == old(self).loader_error()
            },
            old(self).loader_state() == 3 && capacity == 0 ==> {
                &&& r == PkgAction::Report(LoaderRet::NotEnoughSpace.spec_code())
                &&& final(self).loader_state() == 3
                &&& final(self).loader_size() == old(self).loader_size()
                &&& final(self).loader_position() == old(self).loader_position()
                &&& final(self).loader_error() == LoaderRet::NotEnoughSpace
            },
            old(self).loader_state() == 4 ==> {
                let p = old(self).loader_position();
                if p + 1 >= old(self).loader_size() {
                    &&& r == PkgAction::LastData(p)
                    &&& final(self).loader_state() == 0
                    &&& final(self).loader_size() == 0
                    &&& final(self).loader_position() == p + 1
                } else {
                    &&& r == PkgAction::Data(p)
                    &&& final(self).loader_state() == 4
                    &&& final(self).loader_size() == old(self).loader_size()
                    &&& final(self).loader_position() == p + 1
                }
            },
    {
        let state = self.loader.state;
        if state < 3 {
            let shift: usize = if state == 0 { 1 } else if state == 1 { 256 } else { 65536 };
            assert(byte * shift <= 255 * shift) by (nonlinear_arith)
                requires
                    byte <= 255,
                    shift >= 0,
            ;
            self.loader.size = self.loader.size + byte as usize * shift;
            self.loader.state = state + 1;
            PkgAction::Nothing
        } else if state == 3 {
            if capacity > 0 {
                assert(byte * 16777216 <= 255 * 16777216) by (nonlinear_arith)
                    requires
                        byte <= 255,
                ;
                self.loader.size = self.loader.size + byte as usize * 16777216;
                self.loader.state = 4;
                PkgAction::Report(LoaderRet::CTR.code())
            } else {
                self.loader.error = LoaderRet::NotEnoughSpace;
                PkgAction::Report(LoaderRet::NotEnoughSpace.code())
            }
        } else if state == 4 {
            let p = self.loader.position;
            self.loader.position = p + 1;
            if self.loader.position >= self.loader.size {
                self.mode = ControlMode::LineMode;
                self.loader.state = 0;
                self.loader.size = 0;
                PkgAction::LastData(p)
            } else {
                PkgAction::Data(p)
            }
        } else {
            PkgAction::Nothing
        }
    }

    /// Records the outcome of an ended upload; gives the code to report.
    pub fn finish_loader(&mut self, ret: LoaderRet) -> (r: u8)
        requires
            old(self).wf(),
        ensures
            final(self).wf(),
            final(self).loader_error() == ret,
            r == ret.spec_code(),
            final(self).mode_of() == old(self).mode_of(),
            final(self).loader_state() == old(self).loader_state(),
            final(self).loader_size() == old(self).loader_size(),
            final(self).loader_position() == old(self).loader_position(),
    {
        self.loader.error = ret;
        ret.code()
    }

    /// The reply line: `prefix`, the digit of `return_code`, CR LF.
    pub fn send_result(prefix: &str, return_code: u8) -> (r: Vec<u8>)
        requires
            return_code < 0x50,
        ensures
            r@ == prefix.spec_bytes() + seq![(0x30 + return_code) as u8, 13u8, 10u8],
    {
        let mut out: Vec<u8> = Vec::new();
        push_str(&mut out, prefix);
        out.push(0x30 + return_code);
        out.push(13);
        out.push(10);
        assert(out@ =~= prefix.spec_bytes() + seq![(0x30 + return_code) as u8, 13u8, 10u8]);
        out
    }
}

/// The position of the first line end (CR or LF) in `buf` at or after `from`.
pub open spec fn line_end(buf: Seq<u8>, from: int) -> Option<int>
    decreases buf.len() - from,
{
    if from < 0 || from >= buf.len() {
        None
    } else if buf[from] == 13 || buf[from] == 10 {
        Some(from)
    } else {
        line_end(buf, from + 1)
    }
}

/// Finds the end of the line that starts at `from`.
pub fn find_line_end(buf: &[u8], from: usize) -> (r: Option<usize>)
    ensures
        r == match line_end(buf@, from as int) { Some(p) => Some(p as usize), None => None::<usize> },
{
    let mut i = from;
    while i < buf.len()
        invariant
            from <= i,
            line_end(buf@, i as int) == line_end(buf@, from as int),
        decreases buf@.len() - i,
    {
        if buf[i] == 13 || buf[i] == 10 {
            return Some(i);
        }
        i += 1;
    }
    None
}

} // verus!
