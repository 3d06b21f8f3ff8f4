//! Blocks: typed definitions parsed from configuration text, each owning a
//! content variant with a per-monitor buffer, a refresh protocol and a
//! drain-on-read protocol.

pub mod error;
pub mod one_or_more;

use crate::scan;
use crate::text::color::Color;
use crate::text::{Attributes, AttributesV, Font, Offset, OffsetV, Padding, PaddingV, Text};
use error::{ErrorKind, ParseError, ParseErrorV};
use one_or_more::OneOrMore;
use vstd::prelude::*;

verus! {

/// The placement group a block belongs to.
#[derive(Copy, Clone, Debug, PartialEq, Eq, Hash, Structural)]
pub enum Alignment {
    Left,
    Middle,
    Right,
}

/// How an alignment value is read: one of three names, compared without
/// regard to ASCII case.
pub open spec fn parse_alignment_spec(s: Seq<char>) -> Option<Alignment> {
    if crate::scan::str_ieq(s, "left"@) {
        Some(Alignment::Left)
    } else if crate::scan::str_ieq(s, "middle"@) {
        Some(Alignment::Middle)
    } else if crate::scan::str_ieq(s, "right"@) {
        Some(Alignment::Right)
    } else {
        None
    }
}

impl Alignment {
    /// Reads an alignment from its configuration text.
    pub fn from_str(s: &str) -> (r: Option<Alignment>)
        ensures
            r == parse_alignment_spec(s@),
    {
        if crate::scan::str_eq_nocase(s, "left") {
            Some(Alignment::Left)
        } else if crate::scan::str_eq_nocase(s, "middle") {
            Some(Alignment::Middle)
        } else if crate::scan::str_eq_nocase(s, "right") {
            Some(Alignment::Right)
        } else {
            None
        }
    }
}

// ---------------------------------------------------------------------------
// content
// ---------------------------------------------------------------------------

/// A block's text source: fixed text, an interval-polled command, or a
/// persistent subscription command.  The command forms own a per-monitor
/// buffer of the most recently observed text.
#[derive(Debug)]
pub enum Content {
    Static(String),
    Cmd { cmd: String, last_run: OneOrMore<String> },
    Persistent { cmd: String, last_run: OneOrMore<String> },
}

/// The abstract state of a content: its policy, its command, whether the
/// buffer is still in scalar form, and the buffered texts.
#[verifier::ext_equal]
pub enum ContentV {
    Static(Seq<char>),
    Cmd { cmd: Seq<char>, one: bool, runs: Seq<Seq<char>> },
    Persistent { cmd: Seq<char>, one: bool, runs: Seq<Seq<char>> },
}

impl View for Content {
    type V = ContentV;

    open spec fn view(&self) -> ContentV {
        match self {
            Content::Static(s) => ContentV::Static(s@),
            Content::Cmd { cmd, last_run } => ContentV::Cmd {
                cmd: cmd@,
                one: last_run.is_one(),
                runs: last_run.elems().map_values(|x: String| x@),
            },
            Content::Persistent { cmd, last_run } => ContentV::Persistent {
                cmd: cmd@,
                one: last_run.is_one(),
                runs: last_run.elems().map_values(|x: String| x@),
            },
        }
    }
}

impl ContentV {
    /// How many monitor slots the content answers.
    pub open spec fn fan_out(self) -> nat {
        match self {
            ContentV::Static(_) => 1,
            ContentV::Cmd { runs, .. } => runs.len(),
            ContentV::Persistent { runs, .. } => runs.len(),
        }
    }

    pub open spec fn is_one(self) -> bool {
        match self {
            ContentV::Static(_) => true,
            ContentV::Cmd { one, .. } => one,
            ContentV::Persistent { one, .. } => one,
        }
    }

    /// A monitor index may be looked up when the buffer is scalar or the
    /// index is in range.
    pub open spec fn valid_slot(self, m: int) -> bool {
        match self {
            ContentV::Static(_) => true,
            ContentV::Cmd { one, runs, .. } => one || 0 <= m < runs.len(),
            ContentV::Persistent { one, runs, .. } => one || 0 <= m < runs.len(),
        }
    }

    /// The text the given monitor currently observes; a scalar buffer
    /// answers every index with its single value.
    pub open spec fn slot(self, m: int) -> Seq<char> {
        match self {
            ContentV::Static(s) => s,
            ContentV::Cmd { one, runs, .. } => if one {
                runs[0]
            } else {
                runs[m]
            },
            ContentV::Persistent { one, runs, .. } => if one {
                runs[0]
            } else {
                runs[m]
            },
        }
    }

    /// What a drain returns: fixed text always; a command buffer's stored
    /// value only when it is non-empty.
    pub open spec fn take_result(self, m: int) -> Option<Seq<char>> {
        match self {
            ContentV::Static(s) => Some(s),
            _ => if self.slot(m).len() > 0 {
                Some(self.slot(m))
            } else {
                None
            },
        }
    }

    /// The content after a drain: the drained slot is emptied where a value
    /// was handed out; fixed text never drains.
    pub open spec fn take_post(self, m: int) -> ContentV {
        match self {
            ContentV::Static(_) => self,
            ContentV::Cmd { cmd, one, runs } => if self.slot(m).len() > 0 {
                ContentV::Cmd {
                    cmd,
                    one,
                    runs: runs.update(if one { 0int } else { m }, Seq::empty()),
                }
            } else {
                self
            },
            ContentV::Persistent { cmd, one, runs } => if self.slot(m).len() > 0 {
                ContentV::Persistent {
                    cmd,
                    one,
                    runs: runs.update(if one { 0int } else { m }, Seq::empty()),
                }
            } else {
                self
            },
        }
    }

    /// The content once its buffer answers `n` monitors: a command buffer is
    /// grown with empty slots; fixed text has no per-monitor variance.
    pub open spec fn replicate_post(self, n: int) -> ContentV {
        match self {
            ContentV::Static(_) => self,
            ContentV::Cmd { cmd, one, runs } => if runs.len() >= n {
                self
            } else {
                ContentV::Cmd {
                    cmd,
                    one: false,
                    runs: runs + Seq::new((n - runs.len()) as nat, |k: int| Seq::<char>::empty()),
                }
            },
            ContentV::Persistent { cmd, one, runs } => if runs.len() >= n {
                self
            } else {
                ContentV::Persistent {
                    cmd,
                    one: false,
                    runs: runs + Seq::new((n - runs.len()) as nat, |k: int| Seq::<char>::empty()),
                }
            },
        }
    }

    /// The content after a refresh with the given per-slot results: a polled
    /// command stores every result; fixed text and subscriptions are left
    /// alone.
    pub open spec fn update_post(self, outs: Seq<Seq<char>>) -> ContentV {
        match self {
            ContentV::Cmd { cmd, one, runs } => ContentV::Cmd {
                cmd,
                one,
                runs: Seq::new(runs.len(), |k: int| outs[k]),
            },
            _ => self,
        }
    }
}

// ---------------------------------------------------------------------------
// laws of the drain protocol
// ---------------------------------------------------------------------------

/// Law: draining fixed text hands out the same text every time and never
/// empties it, so a static block is always pending, no matter how often it is
/// drained.
pub proof fn lemma_static_take_never_drains(c: ContentV, m: int)
    requires
        c is Static,
    ensures
        c.take_result(m) == Some(c->Static_0),
        c.take_post(m) == c,
{
}

/// Law: a drain on a command or subscription buffer is answered at most
/// once: when the slot holds a non-empty value the drain hands exactly that
/// value out and empties the slot, so a second drain before the next refresh
/// hands nothing out; an already empty slot changes nothing and hands
/// nothing out.
pub proof fn lemma_take_once(c: ContentV, m: int)
    requires
        !(c is Static),
        c.valid_slot(m),
        c.fan_out() >= 1,
    ensures
        c.slot(m).len() > 0 ==> c.take_result(m) == Some(c.slot(m)),
        c.slot(m).len() == 0 ==> c.take_result(m) is None && c.take_post(m) == c,
        c.take_post(m).take_result(m) is None,
{
}

/// Law: one successful refresh feeds exactly one successful drain.  After a
/// refresh stores the per-slot results, the drain of a slot hands out that
/// slot's stored result when it is non-empty, and a second drain hands
/// nothing out until a later refresh stores a non-empty value; a refresh that
/// stored empty text gives the drain nothing.
pub proof fn lemma_update_take_once(c: ContentV, outs: Seq<Seq<char>>, m: int)
    requires
        c is Cmd,
        c.valid_slot(m),
        c.fan_out() >= 1,
        outs.len() == c.fan_out(),
    ensures
        ({
            let u = c.update_post(outs);
            let idx = if c.is_one() {
                0int
            } else {
                m
            };
            &&& (outs[idx].len() > 0 ==> u.take_result(m) == Some(outs[idx])
                && u.take_post(m).take_result(m) is None)
            &&& (outs[idx].len() == 0 ==> u.take_result(m) is None)
        }),
{
}

/// What one refresh outcome stores: the first line of the output on success,
/// the error text on failure, so that a failing command overwrites stale
/// output visibly.
pub open spec fn processed_output(o: Result<String, String>) -> Seq<char> {
    match o {
        Ok(s) => crate::scan::first_line(s@),
        Err(e) => e@,
    }
}

pub open spec fn processed_outputs(outs: Seq<Result<String, String>>) -> Seq<Seq<char>> {
    outs.map_values(|o: Result<String, String>| processed_output(o))
}

fn process_output(o: &Result<String, String>) -> (r: String)
    ensures
        r@ == processed_output(*o),
{
    match o {
        Ok(s) => crate::scan::take_first_line(s.as_str()),
        Err(e) => e.clone(),
    }
}

/// Grows a buffer with empty slots until it answers `n` monitors.
fn grow(lr: &mut OneOrMore<String>, n: usize)
    ensures
        old(lr).elems().len() >= n ==> *final (lr) == *old(lr),
        old(lr).elems().len() < n ==> {
            &&& !final (lr).is_one()
            &&& final (lr).elems().len() == n
            &&& forall|j: int|
                0 <= j < old(lr).elems().len() ==> final (lr).elems()[j] == old(lr).elems()[j]
            &&& forall|j: int|
                old(lr).elems().len() <= j < n ==> final (lr).elems()[j]@ == Seq::<char>::empty()
        },
{
    let mut len = lr.len();
    while len < n
        invariant
            len == lr.elems().len(),
            old(lr).elems().len() <= len,
            len <= n || len == old(lr).elems().len(),
            len > old(lr).elems().len() ==> !lr.is_one(),
            len == old(lr).elems().len() ==> *lr == *old(lr),
            forall|j: int| 0 <= j < old(lr).elems().len() ==> lr.elems()[j] == old(lr).elems()[j],
            forall|j: int|
                old(lr).elems().len() <= j < len ==> lr.elems()[j]@ == Seq::<char>::empty(),
        decreases n - len,
    {
        lr.push(String::new());
        len = len + 1;
    }
}

/// Drains one buffer slot: hands its value out and leaves an empty marker,
/// or hands nothing out when the slot was already empty.
fn take_slot(lr: &mut OneOrMore<String>, mon: usize) -> (r: Option<String>)
    requires
        old(lr).valid_index(mon as int),
    ensures
        final (lr).is_one() == old(lr).is_one(),
        final (lr).elems().len() == old(lr).elems().len(),
        match r {
            Some(v) => {
                &&& old(lr).slot(mon as int)@.len() > 0
                &&& v == old(lr).slot(mon as int)
                &&& {
                    let idx = if old(lr).is_one() {
                        0int
                    } else {
                        mon as int
                    };
                    &&& final (lr).elems()[idx]@ == Seq::<char>::empty()
                    &&& forall|j: int|
                        0 <= j < old(lr).elems().len() && j != idx ==> final (lr).elems()[j] == old(
                            lr,
                        ).elems()[j]
                }
            },
            None => old(lr).slot(mon as int)@.len() == 0 && *final (lr) == *old(lr),
        },
{
    let pending = !lr.get(mon).as_str().is_empty();
    if pending {
        let v = lr.get(mon).clone();
        lr.set(mon, String::new());
        Some(v)
    } else {
        None
    }
}

impl Content {
    /// Whether the given monitor currently observes empty text.
    pub fn is_empty(&self, monitor: usize) -> (r: bool)
        requires
            self@.valid_slot(monitor as int),
        ensures
            r == (self@.slot(monitor as int).len() == 0),
    {
        match self {
            Content::Static(s) => s.as_str().is_empty(),
            Content::Cmd { last_run, .. } => last_run.get(monitor).as_str().is_empty(),
            Content::Persistent { last_run, .. } => last_run.get(monitor).as_str().is_empty(),
        }
    }

    /// Grows a command buffer so that it answers `n_monitor` monitors; fixed
    /// text is unaffected.
    pub fn replicate_to_mon(self, n_monitor: usize) -> (r: Content)
        ensures
            r@ == self@.replicate_post(n_monitor as int),
    {
        let ghost pre = self@;
        let mut c = self;
        match &mut c {
            Content::Cmd { last_run, .. } => {
                grow(last_run, n_monitor);
            },
            Content::Persistent { last_run, .. } => {
                grow(last_run, n_monitor);
            },
            _ => {},
        }
        proof {
            assert(c@ =~~= pre.replicate_post(n_monitor as int));
        }
        c
    }

    /// Drains the given monitor's pending value: fixed text is handed out
    /// every time; a command buffer hands its stored value out once and then
    /// answers nothing until the next refresh stores a non-empty value.
    pub fn take(&mut self, mon: usize) -> (r: Option<String>)
        requires
            old(self)@.valid_slot(mon as int),
        ensures
            final (self)@ == old(self)@.take_post(mon as int),
            match r {
                Some(s) => old(self)@.take_result(mon as int) == Some(s@),
                None => old(self)@.take_result(mon as int) is None,
            },
    {
        let res: Option<String>;
        match self {
            Content::Static(s) => {
                res = Some(s.clone());
            },
            Content::Cmd { last_run, .. } => {
                res = take_slot(last_run, mon);
            },
            Content::Persistent { last_run, .. } => {
                res = take_slot(last_run, mon);
            },
        }
        proof {
            assert(self@ =~~= old(self)@.take_post(mon as int));
        }
        res
    }

    /// Refreshes a polled command from the given per-monitor outcomes; the
    /// other policies ignore refreshes.
    pub fn update(&mut self, outputs: &Vec<Result<String, String>>)
        requires
            old(self)@ is Cmd ==> outputs@.len() == old(self)@.fan_out(),
        ensures
            final (self)@ == old(self)@.update_post(processed_outputs(outputs@)),
    {
        match self {
            Content::Cmd { last_run, .. } => {
                let ghost pre_one = last_run.is_one();
                let ghost pre_elems = last_run.elems();
                let n = last_run.len();
                let mut m: usize = 0;
                while m < n
                    invariant
                        0 <= m <= n,
                        n == last_run.elems().len(),
                        n == pre_elems.len(),
                        n == outputs@.len(),
                        last_run.is_one() == pre_one,
                        forall|j: int|
                            0 <= j < m ==> last_run.elems()[j]@ == processed_output(outputs@[j]),
                        forall|j: int| m <= j < n ==> last_run.elems()[j] == pre_elems[j],
                    decreases n - m,
                {
                    let v = process_output(&outputs[m]);
                    last_run.set(m, v);
                    m = m + 1;
                }
            },
            _ => {},
        }
        proof {
            assert(self@ =~~= old(self)@.update_post(processed_outputs(outputs@)));
        }
    }

    /// The command an interval-polled content runs.
    pub fn command(&self) -> (r: Option<&String>)
        ensures
            match r {
                Some(c) => self@ matches ContentV::Cmd { cmd, .. } && c@ == cmd,
                None => !(self@ is Cmd),
            },
    {
        match self {
            Content::Cmd { cmd, .. } => Some(cmd),
            _ => None,
        }
    }

    /// How many monitor slots the content answers.
    pub fn fan_out(&self) -> (r: usize)
        ensures
            r as nat == self@.fan_out(),
    {
        match self {
            Content::Static(_) => 1,
            Content::Cmd { last_run, .. } => last_run.len(),
            Content::Persistent { last_run, .. } => last_run.len(),
        }
    }
}

// ---------------------------------------------------------------------------
// blocks
// ---------------------------------------------------------------------------

/// One displayed unit: a content variant plus styling and interaction
/// metadata.
#[derive(Debug)]
pub struct Block {
    pub bg: Option<Color>,
    pub fg: Option<Color>,
    pub un: Option<Color>,
    pub font: Option<Font>,
    pub offset: Option<Offset>,
    /// Click and scroll commands, stored positionally: left click, middle
    /// click, right click, scroll up, scroll down.
    pub actions: Vec<Option<String>>,
    pub content: Content,
    /// Minimum spacing between refreshes, in whole time units.
    pub interval: u64,
    /// The next moment the block is eligible to refresh, as the external
    /// scheduler counts time.
    pub timer: u64,
    pub alignment: Alignment,
    pub raw: bool,
    pub signal: bool,
}

#[verifier::ext_equal]
pub struct BlockV {
    pub bg: Option<Color>,
    pub fg: Option<Color>,
    pub un: Option<Color>,
    pub font: Option<Seq<char>>,
    pub offset: Option<OffsetV>,
    pub actions: Seq<Option<Seq<char>>>,
    pub content: ContentV,
    pub interval: u64,
    pub timer: u64,
    pub alignment: Alignment,
    pub raw: bool,
    pub signal: bool,
}

impl View for Block {
    type V = BlockV;

    open spec fn view(&self) -> BlockV {
        BlockV {
            bg: self.bg,
            fg: self.fg,
            un: self.un,
            font: match self.font {
                Some(f) => Some(f@),
                None => None,
            },
            offset: match self.offset {
                Some(o) => Some(o@),
                None => None,
            },
            actions: self.actions.deep_view(),
            content: self.content@,
            interval: self.interval,
            timer: self.timer,
            alignment: self.alignment,
            raw: self.raw,
            signal: self.signal,
        }
    }
}

/// The styling a block hands the renderer: the defaults overridden by the
/// block's colors and font; the offset pads the left side for the side
/// placements and is ignored in the middle.
pub open spec fn block_attrs(b: BlockV) -> AttributesV {
    let a0 = AttributesV::init();
    let a1 = if b.fg is Some {
        AttributesV { fg_color: b.fg->0, ..a0 }
    } else {
        a0
    };
    let a2 = if b.bg is Some {
        AttributesV { bg_color: b.bg, ..a1 }
    } else {
        a1
    };
    let a3 = if b.font is Some {
        AttributesV { font: b.font->0, ..a2 }
    } else {
        a2
    };
    if b.offset is Some && !(b.alignment is Middle) {
        AttributesV { padding: PaddingV::left_only(b.offset->0), ..a3 }
    } else {
        a3
    }
}

/// Copies a byte vector.
fn copy_bytes(v: &Vec<u8>) -> (r: Vec<u8>)
    ensures
        r@ == v@,
{
    let mut out: Vec<u8> = Vec::new();
    let n = v.len();
    let mut k: usize = 0;
    while k < n
        invariant
            0 <= k <= n,
            n == v@.len(),
            out@ == v@.subrange(0, k as int),
        decreases n - k,
    {
        out.push(v[k]);
        proof {
            assert(out@ =~= v@.subrange(0, k + 1));
        }
        k = k + 1;
    }
    proof {
        assert(out@ =~= v@);
    }
    out
}

/// Copies an offset value.
fn copy_offset(o: &Offset) -> (r: Offset)
    ensures
        r@ == o@,
{
    Offset {
        neg: o.neg,
        int_digits: copy_bytes(&o.int_digits),
        frac_digits: copy_bytes(&o.frac_digits),
    }
}

impl Block {
    /// Drains the given monitor's pending value and styles it; hands nothing
    /// back when nothing is pending, so the caller can skip this block for
    /// this cycle.
    pub fn to_text(&mut self, monitor: usize) -> (r: Option<Text>)
        requires
            old(self)@.content.valid_slot(monitor as int),
        ensures
            final (self)@ == (BlockV {
                content: old(self)@.content.take_post(monitor as int),
                ..old(self)@
            }),
            match r {
                Some(t) => old(self)@.content.take_result(monitor as int) == Some(t.text@)
                    && t.attr@ == block_attrs(old(self)@),
                None => old(self)@.content.take_result(monitor as int) is None,
            },
    {
        let taken = self.content.take(monitor);
        proof {
            assert(self@ =~~= (BlockV {
                content: old(self)@.content.take_post(monitor as int),
                ..old(self)@
            }));
        }
        match taken {
            Some(text) => {
                let mut attr = Attributes::default();
                if let Some(fg) = self.fg {
                    attr = attr.with_fg_color(fg);
                }
                if let Some(bg) = self.bg {
                    attr = attr.with_bg_color(Some(bg));
                }
                if let Some(font) = &self.font {
                    attr = attr.with_font(Font::new(font.name.as_str()));
                }
                if let Some(offset) = &self.offset {
                    match self.alignment {
                        Alignment::Left => {
                            attr = attr.with_padding(Padding::left(copy_offset(offset)));
                        },
                        Alignment::Right => {
                            attr = attr.with_padding(Padding::left(copy_offset(offset)));
                        },
                        Alignment::Middle => {},
                    }
                }
                proof {
                    assert(attr@ =~~= block_attrs(old(self)@));
                }
                Some(Text { attr, text })
            },
            None => None,
        }
    }

    /// Refreshes the content from the given per-monitor outcomes.
    pub fn update(&mut self, outputs: &Vec<Result<String, String>>)
        requires
            old(self)@.content is Cmd ==> outputs@.len() == old(self)@.content.fan_out(),
        ensures
            final (self)@ == (BlockV {
                content: old(self)@.content.update_post(processed_outputs(outputs@)),
                ..old(self)@
            }),
    {
        self.content.update(outputs);
        proof {
            assert(self@ =~~= (BlockV {
                content: old(self)@.content.update_post(processed_outputs(outputs@)),
                ..old(self)@
            }));
        }
    }

    /// The command this block polls, if its content is an interval-polled
    /// command.
    pub fn command(&self) -> (r: Option<&String>)
        ensures
            match r {
                Some(c) => self@.content matches ContentV::Cmd { cmd, .. } && c@ == cmd,
                None => !(self@.content is Cmd),
            },
    {
        self.content.command()
    }

    /// How many monitor slots this block's content answers.
    pub fn fan_out(&self) -> (r: usize)
        ensures
            r as nat == self@.content.fan_out(),
    {
        self.content.fan_out()
    }
}

/// The views of a sequence of styled texts.
pub open spec fn texts_view(v: Seq<Text>) -> Seq<crate::text::TextV> {
    v.map_values(|t: Text| t@)
}

/// The texts one render pass collects from a group: each block is drained in
/// order, and only a block with a pending value contributes one styled text.
pub open spec fn drained_texts(bs: Seq<BlockV>, m: int) -> Seq<crate::text::TextV>
    decreases bs.len(),
{
    if bs.len() == 0 {
        Seq::empty()
    } else {
        let rest = drained_texts(bs.drop_first(), m);
        match bs[0].content.take_result(m) {
            Some(t) => seq![crate::text::TextV { attr: block_attrs(bs[0]), text: t }] + rest,
            None => rest,
        }
    }
}

/// A group after one render pass: every block drained.
pub open spec fn drained_blocks(bs: Seq<BlockV>, m: int) -> Seq<BlockV> {
    Seq::new(bs.len(), |k: int| BlockV { content: bs[k].content.take_post(m), ..bs[k] })
}

/// One render pass over a group: drains every block in order and hands back
/// the styled texts of those with a pending value, so that the caller can
/// skip unchanged blocks without recomputing their layout.
pub fn drain_texts(blocks: &mut Vec<Block>, monitor: usize) -> (r: Vec<Text>)
    requires
        forall|k: int|
            0 <= k < old(blocks)@.len() ==> old(blocks)@[k]@.content.valid_slot(monitor as int),
    ensures
        blocks_view(final (blocks)@) == drained_blocks(blocks_view(old(blocks)@), monitor as int),
        texts_view(r@) == drained_texts(blocks_view(old(blocks)@), monitor as int),
{
    let ghost full = blocks_view(old(blocks)@);
    let mut out: Vec<Text> = Vec::new();
    let n = blocks.len();
    let mut i: usize = 0;
    proof {
        assert(full.skip(0) =~= full);
        assert(texts_view(out@) + drained_texts(full, monitor as int) =~= drained_texts(
            full,
            monitor as int,
        ));
    }
    while i < n
        invariant
            0 <= i <= n,
            n == blocks@.len(),
            n == full.len(),
            full == blocks_view(old(blocks)@),
            forall|k: int| i <= k < n ==> blocks@[k] == old(blocks)@[k],
            forall|k: int|
                0 <= k < i ==> blocks@[k]@ == (BlockV {
                    content: full[k].content.take_post(monitor as int),
                    ..full[k]
                }),
            forall|k: int|
                0 <= k < old(blocks)@.len() ==> old(blocks)@[k]@.content.valid_slot(
                    monitor as int,
                ),
            texts_view(out@) + drained_texts(full.skip(i as int), monitor as int) == drained_texts(
                full,
                monitor as int,
            ),
        decreases n - i,
    {
        let ghost rest = full.skip(i as int);
        proof {
            assert(rest[0] == full[i as int]);
            assert(rest.drop_first() =~= full.skip(i + 1));
            assert(blocks@[i as int] == old(blocks)@[i as int]);
            assert(blocks@[i as int]@ == full[i as int]);
        }
        let ghost pre_out = out@;
        let t = blocks[i].to_text(monitor);
        match t {
            Some(x) => {
                out.push(x);
                proof {
                    assert(texts_view(out@) =~= texts_view(pre_out).push(x@));
                    assert(texts_view(pre_out).push(x@) + drained_texts(
                        full.skip(i + 1),
                        monitor as int,
                    ) =~= texts_view(pre_out) + (seq![x@] + drained_texts(
                        full.skip(i + 1),
                        monitor as int,
                    )));
                }
            },
            None => {},
        }
        i = i + 1;
    }
    proof {
        assert(full.skip(n as int) =~= Seq::<BlockV>::empty());
        assert(texts_view(out@) + Seq::<crate::text::TextV>::empty() =~= texts_view(out@));
        assert(blocks_view(blocks@) =~= drained_blocks(full, monitor as int));
    }
    out
}

// ---------------------------------------------------------------------------
// the block builder
// ---------------------------------------------------------------------------

/// Why a block section could not be built into a block.
#[derive(Copy, Clone, Debug, PartialEq, Eq, Structural)]
pub enum BuildError {
    /// No content option was supplied.
    MissingContent,
    /// No alignment option was supplied.
    MissingAlignment,
}

/// A mutable accumulator for one block section: the block's optional fields,
/// gathered option line by option line, validated only when the block is
/// built.
#[derive(Debug)]
pub struct BlockBuilder {
    pub bg: Option<Color>,
    pub fg: Option<Color>,
    pub un: Option<Color>,
    pub font: Option<Font>,
    pub offset: Option<Offset>,
    pub actions: Vec<Option<String>>,
    pub content: Option<Content>,
    pub interval: Option<u64>,
    pub alignment: Option<Alignment>,
    pub raw: bool,
    pub signal: bool,
    pub multi_monitor: bool,
}

#[verifier::ext_equal]
pub struct BuilderV {
    pub bg: Option<Color>,
    pub fg: Option<Color>,
    pub un: Option<Color>,
    pub font: Option<Seq<char>>,
    pub offset: Option<OffsetV>,
    pub actions: Seq<Option<Seq<char>>>,
    pub content: Option<ContentV>,
    pub interval: Option<u64>,
    pub alignment: Option<Alignment>,
    pub raw: bool,
    pub signal: bool,
    pub multi_monitor: bool,
}

impl View for BlockBuilder {
    type V = BuilderV;

    open spec fn view(&self) -> BuilderV {
        BuilderV {
            bg: self.bg,
            fg: self.fg,
            un: self.un,
            font: match self.font {
                Some(f) => Some(f@),
                None => None,
            },
            offset: match self.offset {
                Some(o) => Some(o@),
                None => None,
            },
            actions: self.actions.deep_view(),
            content: match self.content {
                Some(c) => Some(c@),
                None => None,
            },
            interval: self.interval,
            alignment: self.alignment,
            raw: self.raw,
            signal: self.signal,
            multi_monitor: self.multi_monitor,
        }
    }
}

impl BuilderV {
    /// The builder before any option was applied.
    pub open spec fn init() -> BuilderV {
        BuilderV {
            bg: None,
            fg: None,
            un: None,
            font: None,
            offset: None,
            actions: Seq::new(5, |k: int| None),
            content: None,
            interval: None,
            alignment: None,
            raw: false,
            signal: false,
            multi_monitor: false,
        }
    }
}

/// How a gathered block section is validated and built: it must have a
/// content and an alignment; the fan-out is the monitor count only when
/// multi-monitor replication was asked for; the interval falls back to ten
/// time units.
pub open spec fn build_spec(b: BuilderV, n_monitor: int) -> Result<BlockV, BuildError> {
    let n = if b.multi_monitor {
        n_monitor
    } else {
        1
    };
    if b.content is None {
        Err(BuildError::MissingContent)
    } else if b.alignment is None {
        Err(BuildError::MissingAlignment)
    } else {
        Ok(
            BlockV {
                bg: b.bg,
                fg: b.fg,
                un: b.un,
                font: b.font,
                offset: b.offset,
                actions: b.actions,
                content: b.content->0.replicate_post(n),
                interval: if b.interval is Some {
                    b.interval->0
                } else {
                    10
                },
                timer: 0,
                alignment: b.alignment->0,
                raw: b.raw,
                signal: b.signal,
            },
        )
    }
}

impl Default for BlockBuilder {
    /// The builder before any option was applied.
    fn default() -> (r: BlockBuilder)
        ensures
            r@ == BuilderV::init(),
    {
        let mut actions: Vec<Option<String>> = Vec::new();
        let mut k: usize = 0;
        while k < 5
            invariant
                0 <= k <= 5,
                actions@.len() == k,
                forall|j: int| 0 <= j < k ==> actions@[j] is None,
        decreases 5 - k,
        {
            actions.push(None);
            k = k + 1;
        }
        let r = BlockBuilder {
            bg: None,
            fg: None,
            un: None,
            font: None,
            offset: None,
            actions,
            content: None,
            interval: None,
            alignment: None,
            raw: false,
            signal: false,
            multi_monitor: false,
        };
        proof {
            assert(r@.actions =~= Seq::new(5, |j: int| None::<Seq<char>>));
            assert(r@ =~~= BuilderV::init());
        }
        r
    }
}

impl BlockBuilder {
    /// Stores a click or scroll command at its position.
    pub fn action(self, index: usize, action: &str) -> (r: BlockBuilder)
        requires
            index < 5,
            self@.actions.len() == 5,
        ensures
            r@ == (BuilderV {
                actions: self@.actions.update(index as int, Some(action@)),
                ..self@
            }),
    {
        let ghost pre = self@;
        let mut b = self;
        b.actions.set(index, Some(action.to_owned()));
        proof {
            assert(b@ =~~= (BuilderV {
                actions: pre.actions.update(index as int, Some(action@)),
                ..pre
            }));
        }
        b
    }

    /// Sets the content to an interval-polled command.
    pub fn content_command(self, c: &str) -> (r: BlockBuilder)
        ensures
            r@ == (BuilderV {
                content: Some(
                    ContentV::Cmd { cmd: c@, one: true, runs: seq![Seq::<char>::empty()] },
                ),
                ..self@
            }),
    {
        let ghost pre = self@;
        let r = BlockBuilder {
            content: Some(Content::Cmd { cmd: c.to_owned(), last_run: OneOrMore::One(String::new()) }),
            ..self
        };
        proof {
            assert(r@ =~~= (BuilderV {
                content: Some(
                    ContentV::Cmd { cmd: c@, one: true, runs: seq![Seq::<char>::empty()] },
                ),
                ..pre
            }));
        }
        r
    }

    /// Sets the content to fixed text.
    pub fn content_static(self, c: &str) -> (r: BlockBuilder)
        ensures
            r@ == (BuilderV { content: Some(ContentV::Static(c@)), ..self@ }),
    {
        let ghost pre = self@;
        let r = BlockBuilder { content: Some(Content::Static(c.to_owned())), ..self };
        proof {
            assert(r@ =~~= (BuilderV { content: Some(ContentV::Static(c@)), ..pre }));
        }
        r
    }

    /// Sets the content to a persistent subscription command.
    pub fn content_persistent(self, c: &str) -> (r: BlockBuilder)
        ensures
            r@ == (BuilderV {
                content: Some(
                    ContentV::Persistent { cmd: c@, one: true, runs: seq![Seq::<char>::empty()] },
                ),
                ..self@
            }),
    {
        let ghost pre = self@;
        let r = BlockBuilder {
            content: Some(
                Content::Persistent { cmd: c.to_owned(), last_run: OneOrMore::One(String::new()) },
            ),
            ..self
        };
        proof {
            assert(r@ =~~= (BuilderV {
                content: Some(
                    ContentV::Persistent { cmd: c@, one: true, runs: seq![Seq::<char>::empty()] },
                ),
                ..pre
            }));
        }
        r
    }

    /// Validates the gathered options and builds the block.
    pub fn build(self, n_monitor: usize) -> (r: Result<Block, BuildError>)
        ensures
            match r {
                Ok(b) => build_spec(self@, n_monitor as int) == Ok::<BlockV, BuildError>(b@),
                Err(e) => build_spec(self@, n_monitor as int) == Err::<BlockV, BuildError>(e),
            },
    {
        let ghost pre = self@;
        let BlockBuilder {
            bg,
            fg,
            un,
            font,
            offset,
            actions,
            content,
            interval,
            alignment,
            raw,
            signal,
            multi_monitor,
        } = self;
        let n = if multi_monitor {
            n_monitor
        } else {
            1
        };
        match content {
            None => Err(BuildError::MissingContent),
            Some(content) => match alignment {
                None => Err(BuildError::MissingAlignment),
                Some(alignment) => {
                    let interval = match interval {
                        Some(i) => i,
                        None => 10,
                    };
                    let b = Block {
                        bg,
                        fg,
                        un,
                        font,
                        offset,
                        actions,
                        content: content.replicate_to_mon(n),
                        interval,
                        timer: 0,
                        alignment,
                        raw,
                        signal,
                    };
                    proof {
                        assert(build_spec(pre, n_monitor as int) == Ok::<BlockV, BuildError>(b@))
                            by {
                            assert(b@ =~~= build_spec(pre, n_monitor as int)->Ok_0);
                        }
                    }
                    Ok(b)
                },
            },
        }
    }
}

// ---------------------------------------------------------------------------
// option lines
// ---------------------------------------------------------------------------

/// The key of an option line: the text before the colon, with surrounding
/// blanks and the leading `*`/`-` decoration removed.
pub open spec fn clean_key(k: Seq<char>) -> Seq<char> {
    scan::trim_spec(
        scan::strip_leading_spec(scan::strip_leading_spec(scan::trim_spec(k), '*'), '-'),
    )
}

/// The value of an option line: the text after the colon, with surrounding
/// blanks removed and a single trailing quote stripped.
pub open spec fn clean_value(v: Seq<char>) -> Seq<char> {
    scan::strip_quote(scan::trim_spec(v))
}

fn clean_key_exec<'a>(k: &'a str) -> (r: &'a str)
    ensures
        r@ == clean_key(k@),
{
    scan::trim(scan::strip_leading(scan::strip_leading(scan::trim(k), '*'), '-'))
}

fn clean_value_exec<'a>(v: &'a str) -> (r: &'a str)
    ensures
        r@ == clean_value(v@),
{
    scan::strip_one_quote(scan::trim(v))
}

/// How one block option line changes the gathered builder.  A line without a
/// colon, or with a malformed value, is a fatal error naming the raw line; an
/// unrecognized key changes nothing.
pub open spec fn apply_block_opt(b: BuilderV, line: Seq<char>) -> Result<BuilderV, ParseErrorV> {
    let i = scan::first_at(line, ':');
    if !(0 <= i < line.len()) {
        Err(ParseErrorV { line, kind: ErrorKind::MissingSeparator })
    } else {
        let key = clean_key(line.subrange(0, i));
        let value = clean_value(line.subrange(i + 1, line.len() as int));
        if key == "background"@ || key == "bg"@ {
            match crate::text::color::parse_color_spec(value) {
                Ok(c) => Ok(BuilderV { bg: Some(c), ..b }),
                Err(e) => Err(ParseErrorV { line, kind: ErrorKind::InvalidColor(e) }),
            }
        } else if key == "foreground"@ || key == "fg"@ {
            match crate::text::color::parse_color_spec(value) {
                Ok(c) => Ok(BuilderV { fg: Some(c), ..b }),
                Err(e) => Err(ParseErrorV { line, kind: ErrorKind::InvalidColor(e) }),
            }
        } else if key == "underline"@ || key == "un"@ {
            match crate::text::color::parse_color_spec(value) {
                Ok(c) => Ok(BuilderV { un: Some(c), ..b }),
                Err(e) => Err(ParseErrorV { line, kind: ErrorKind::InvalidColor(e) }),
            }
        } else if key == "font"@ {
            Ok(BuilderV { font: Some(value), ..b })
        } else if key == "offset"@ {
            match crate::text::parse_offset_spec(value) {
                Some(o) => Ok(BuilderV { offset: Some(o), ..b }),
                None => Err(ParseErrorV { line, kind: ErrorKind::InvalidNumber }),
            }
        } else if key == "left-click"@ {
            Ok(BuilderV { actions: b.actions.update(0, Some(value)), ..b })
        } else if key == "middle-click"@ {
            Ok(BuilderV { actions: b.actions.update(1, Some(value)), ..b })
        } else if key == "right-click"@ {
            Ok(BuilderV { actions: b.actions.update(2, Some(value)), ..b })
        } else if key == "scroll-up"@ {
            Ok(BuilderV { actions: b.actions.update(3, Some(value)), ..b })
        } else if key == "scroll-down"@ {
            Ok(BuilderV { actions: b.actions.update(4, Some(value)), ..b })
        } else if key == "interval"@ {
            match scan::parse_u64_spec(value) {
                Some(v) => Ok(BuilderV { interval: Some(v), ..b }),
                None => Err(ParseErrorV { line, kind: ErrorKind::InvalidNumber }),
            }
        } else if key == "command"@ || key == "cmd"@ {
            Ok(
                BuilderV {
                    content: Some(
                        ContentV::Cmd { cmd: value, one: true, runs: seq![Seq::<char>::empty()] },
                    ),
                    ..b
                },
            )
        } else if key == "static"@ {
            Ok(BuilderV { content: Some(ContentV::Static(value)), ..b })
        } else if key == "persistent"@ {
            Ok(
                BuilderV {
                    content: Some(
                        ContentV::Persistent {
                            cmd: value,
                            one: true,
                            runs: seq![Seq::<char>::empty()],
                        },
                    ),
                    ..b
                },
            )
        } else if key == "alignment"@ || key == "align"@ {
            match parse_alignment_spec(value) {
                Some(a) => Ok(BuilderV { alignment: Some(a), ..b }),
                None => Err(ParseErrorV { line, kind: ErrorKind::InvalidAlignment }),
            }
        } else if key == "signal"@ {
            match scan::parse_bool_spec(value) {
                Some(v) => Ok(BuilderV { signal: v, ..b }),
                None => Err(ParseErrorV { line, kind: ErrorKind::InvalidBoolean }),
            }
        } else if key == "raw"@ {
            match scan::parse_bool_spec(value) {
                Some(v) => Ok(BuilderV { raw: v, ..b }),
                None => Err(ParseErrorV { line, kind: ErrorKind::InvalidBoolean }),
            }
        } else if key == "multi_monitor"@ {
            match scan::parse_bool_spec(value) {
                Some(v) => Ok(BuilderV { multi_monitor: v, ..b }),
                None => Err(ParseErrorV { line, kind: ErrorKind::InvalidBoolean }),
            }
        } else {
            Ok(b)
        }
    }
}

/// Applies one block option line to the builder.
fn apply_block_opt_exec(b: BlockBuilder, opt: &str) -> (r: Result<BlockBuilder, ParseError>)
    requires
        b@.actions.len() == 5,
    ensures
        match r {
            Ok(b2) => apply_block_opt(b@, opt@) == Ok::<BuilderV, ParseErrorV>(b2@)
                && b2@.actions.len() == 5,
            Err(e) => apply_block_opt(b@, opt@) == Err::<BuilderV, ParseErrorV>(e@),
        },
{
    let n = opt.unicode_len();
    let i = scan::find_char(opt, ':');
    proof {
        scan::lemma_first_at_props(opt@, ':');
    }
    if i == n {
        return Err(ParseError::new(opt, ErrorKind::MissingSeparator));
    }
    let key = clean_key_exec(opt.substring_char(0, i));
    let value = clean_value_exec(opt.substring_char(i + 1, n));
    if scan::str_eq(key, "background") || scan::str_eq(key, "bg") {
        match Color::from_str(value) {
            Ok(c) => Ok(BlockBuilder { bg: Some(c), ..b }),
            Err(e) => Err(ParseError::new(opt, ErrorKind::InvalidColor(e))),
        }
    } else if scan::str_eq(key, "foreground") || scan::str_eq(key, "fg") {
        match Color::from_str(value) {
            Ok(c) => Ok(BlockBuilder { fg: Some(c), ..b }),
            Err(e) => Err(ParseError::new(opt, ErrorKind::InvalidColor(e))),
        }
    } else if scan::str_eq(key, "underline") || scan::str_eq(key, "un") {
        match Color::from_str(value) {
            Ok(c) => Ok(BlockBuilder { un: Some(c), ..b }),
            Err(e) => Err(ParseError::new(opt, ErrorKind::InvalidColor(e))),
        }
    } else if scan::str_eq(key, "font") {
        Ok(BlockBuilder { font: Some(Font::new(value)), ..b })
    } else if scan::str_eq(key, "offset") {
        match Offset::from_str(value) {
            Some(o) => Ok(BlockBuilder { offset: Some(o), ..b }),
            None => Err(ParseError::new(opt, ErrorKind::InvalidNumber)),
        }
    } else if scan::str_eq(key, "left-click") {
        Ok(b.action(0, value))
    } else if scan::str_eq(key, "middle-click") {
        Ok(b.action(1, value))
    } else if scan::str_eq(key, "right-click") {
        Ok(b.action(2, value))
    } else if scan::str_eq(key, "scroll-up") {
        Ok(b.action(3, value))
    } else if scan::str_eq(key, "scroll-down") {
        Ok(b.action(4, value))
    } else if scan::str_eq(key, "interval") {
        match scan::parse_u64(value) {
            Some(v) => Ok(BlockBuilder { interval: Some(v), ..b }),
            None => Err(ParseError::new(opt, ErrorKind::InvalidNumber)),
        }
    } else if scan::str_eq(key, "command") || scan::str_eq(key, "cmd") {
        Ok(b.content_command(value))
    } else if scan::str_eq(key, "static") {
        Ok(b.content_static(value))
    } else if scan::str_eq(key, "persistent") {
        Ok(b.content_persistent(value))
    } else if scan::str_eq(key, "alignment") || scan::str_eq(key, "align") {
        match Alignment::from_str(value) {
            Some(a) => Ok(BlockBuilder { alignment: Some(a), ..b }),
            None => Err(ParseError::new(opt, ErrorKind::InvalidAlignment)),
        }
    } else if scan::str_eq(key, "signal") {
        match scan::parse_bool(value) {
            Some(v) => Ok(BlockBuilder { signal: v, ..b }),
            None => Err(ParseError::new(opt, ErrorKind::InvalidBoolean)),
        }
    } else if scan::str_eq(key, "raw") {
        match scan::parse_bool(value) {
            Some(v) => Ok(BlockBuilder { raw: v, ..b }),
            None => Err(ParseError::new(opt, ErrorKind::InvalidBoolean)),
        }
    } else if scan::str_eq(key, "multi_monitor") {
        match scan::parse_bool(value) {
            Some(v) => Ok(BlockBuilder { multi_monitor: v, ..b }),
            None => Err(ParseError::new(opt, ErrorKind::InvalidBoolean)),
        }
    } else {
        Ok(b)
    }
}

/// Folds the option lines of one block section over the builder, skipping
/// blank lines and stopping at the first error.
pub open spec fn parse_block_lines(b: BuilderV, lines: Seq<Seq<char>>) -> Result<
    BuilderV,
    ParseErrorV,
>
    decreases lines.len(),
{
    if lines.len() == 0 {
        Ok(b)
    } else if scan::line_blank(lines[0]) {
        parse_block_lines(b, lines.drop_first())
    } else {
        match apply_block_opt(b, lines[0]) {
            Ok(b2) => parse_block_lines(b2, lines.drop_first()),
            Err(e) => Err(e),
        }
    }
}

/// How one block section is read: the section's first line is its header
/// and is discarded; every further non-blank line is applied as an option,
/// then the block is built; a missing content or alignment is reported
/// against a fixed marker line.
pub open spec fn parse_block_spec(section: Seq<char>, n_monitor: int) -> Result<
    BlockV,
    ParseErrorV,
> {
    match parse_block_lines(BuilderV::init(), scan::split_lines(section).drop_first()) {
        Ok(bv) => match build_spec(bv, n_monitor) {
            Ok(bl) => Ok(bl),
            Err(BuildError::MissingContent) => Err(
                ParseErrorV { line: "BLOCK DEFINITION"@, kind: ErrorKind::MissingContent },
            ),
            Err(BuildError::MissingAlignment) => Err(
                ParseErrorV { line: "BLOCK DEFINITION"@, kind: ErrorKind::MissingAlignment },
            ),
        },
        Err(e) => Err(e),
    }
}

impl Block {
    /// Reads one block section: a header line, which is discarded, followed
    /// by `key: value` option lines.
    pub fn parse(section: &str, n_monitor: usize) -> (r: Result<Block, ParseError>)
        ensures
            match r {
                Ok(b) => parse_block_spec(section@, n_monitor as int) == Ok::<
                    BlockV,
                    ParseErrorV,
                >(b@),
                Err(e) => parse_block_spec(section@, n_monitor as int) == Err::<
                    BlockV,
                    ParseErrorV,
                >(e@),
            },
    {
        let lines = scan::split_lines_vec(section);
        let ghost all = scan::split_lines(section@);
        let mut b = BlockBuilder::default();
        let nl = lines.len();
        let mut idx: usize = 1;
        proof {
            assert(all.len() >= 1);
            assert(all.drop_first() =~= all.skip(1));
        }
        while idx < nl
            invariant
                1 <= idx <= nl,
                nl == all.len(),
                all == scan::split_lines(section@),
                lines.deep_view() == all,
                b@.actions.len() == 5,
                parse_block_lines(BuilderV::init(), all.drop_first()) == parse_block_lines(
                    b@,
                    all.skip(idx as int),
                ),
            decreases nl - idx,
        {
            let ghost rest = all.skip(idx as int);
            proof {
                assert(lines.deep_view()[idx as int] == lines@[idx as int]@);
                assert(rest[0] == all[idx as int]);
                assert(rest.drop_first() =~= all.skip(idx + 1));
            }
            let line = &lines[idx];
            if !scan::is_blank(line.as_str()) {
                b = match apply_block_opt_exec(b, line.as_str()) {
                    Ok(b2) => b2,
                    Err(e) => {
                        return Err(e);
                    },
                };
            }
            idx = idx + 1;
        }
        proof {
            assert(all.skip(nl as int) =~= Seq::<Seq<char>>::empty());
        }
        match b.build(n_monitor) {
            Ok(bl) => Ok(bl),
            Err(BuildError::MissingContent) => Err(
                ParseError::new("BLOCK DEFINITION", ErrorKind::MissingContent),
            ),
            Err(BuildError::MissingAlignment) => Err(
                ParseError::new("BLOCK DEFINITION", ErrorKind::MissingAlignment),
            ),
        }
    }
}

// ---------------------------------------------------------------------------
// the global section
// ---------------------------------------------------------------------------

/// Bar-wide defaults; every field is optional, and absence defers to the
/// consumer's default.
#[derive(Debug)]
pub struct GlobalConfig {
    pub base_geometry: Option<String>,
    pub bars_geometries: Vec<String>,
    pub bottom: bool,
    pub font: Option<Font>,
    pub n_clickables: Option<u32>,
    pub name: Option<String>,
    pub underline_width: Option<u32>,
    pub background: Option<Color>,
    pub foreground: Option<Color>,
    pub underline: Option<Color>,
    pub separator: Option<String>,
    pub tray: bool,
}

#[verifier::ext_equal]
pub struct GlobalV {
    pub base_geometry: Option<Seq<char>>,
    pub bars_geometries: Seq<Seq<char>>,
    pub bottom: bool,
    pub font: Option<Seq<char>>,
    pub n_clickables: Option<u32>,
    pub name: Option<Seq<char>>,
    pub underline_width: Option<u32>,
    pub background: Option<Color>,
    pub foreground: Option<Color>,
    pub underline: Option<Color>,
    pub separator: Option<Seq<char>>,
    pub tray: bool,
}

impl View for GlobalConfig {
    type V = GlobalV;

    open spec fn view(&self) -> GlobalV {
        GlobalV {
            base_geometry: match self.base_geometry {
                Some(s) => Some(s@),
                None => None,
            },
            bars_geometries: self.bars_geometries.deep_view(),
            bottom: self.bottom,
            font: match self.font {
                Some(f) => Some(f@),
                None => None,
            },
            n_clickables: self.n_clickables,
            name: match self.name {
                Some(s) => Some(s@),
                None => None,
            },
            underline_width: self.underline_width,
            background: self.background,
            foreground: self.foreground,
            underline: self.underline,
            separator: match self.separator {
                Some(s) => Some(s@),
                None => None,
            },
            tray: self.tray,
        }
    }
}

impl GlobalV {
    /// The configuration before any option was applied: everything unset.
    pub open spec fn init() -> GlobalV {
        GlobalV {
            base_geometry: None,
            bars_geometries: Seq::empty(),
            bottom: false,
            font: None,
            n_clickables: None,
            name: None,
            underline_width: None,
            background: None,
            foreground: None,
            underline: None,
            separator: None,
            tray: false,
        }
    }
}

impl Default for GlobalConfig {
    /// The configuration before any option was applied: everything unset.
    fn default() -> (r: GlobalConfig)
        ensures
            r@ == GlobalV::init(),
    {
        let r = GlobalConfig {
            base_geometry: None,
            bars_geometries: Vec::new(),
            bottom: false,
            font: None,
            n_clickables: None,
            name: None,
            underline_width: None,
            background: None,
            foreground: None,
            underline: None,
            separator: None,
            tray: false,
        };
        proof {
            assert(r@ =~~= GlobalV::init());
        }
        r
    }
}

/// How one global option line changes the gathered configuration; the key
/// set is disjoint from the block keys and offers one-letter aliases.
pub open spec fn apply_global_opt(gc: GlobalV, line: Seq<char>) -> Result<GlobalV, ParseErrorV> {
    let i = scan::first_at(line, ':');
    if !(0 <= i < line.len()) {
        Err(ParseErrorV { line, kind: ErrorKind::MissingSeparator })
    } else {
        let key = clean_key(line.subrange(0, i));
        let value = clean_value(line.subrange(i + 1, line.len() as int));
        if key == "background"@ || key == "bg"@ || key == "B"@ {
            match crate::text::color::parse_color_spec(value) {
                Ok(c) => Ok(GlobalV { background: Some(c), ..gc }),
                Err(e) => Err(ParseErrorV { line, kind: ErrorKind::InvalidColor(e) }),
            }
        } else if key == "foreground"@ || key == "fg"@ || key == "F"@ {
            match crate::text::color::parse_color_spec(value) {
                Ok(c) => Ok(GlobalV { foreground: Some(c), ..gc }),
                Err(e) => Err(ParseErrorV { line, kind: ErrorKind::InvalidColor(e) }),
            }
        } else if key == "underline"@ || key == "un"@ || key == "U"@ {
            match crate::text::color::parse_color_spec(value) {
                Ok(c) => Ok(GlobalV { underline: Some(c), ..gc }),
                Err(e) => Err(ParseErrorV { line, kind: ErrorKind::InvalidColor(e) }),
            }
        } else if key == "font"@ || key == "f"@ {
            Ok(GlobalV { font: Some(value), ..gc })
        } else if key == "bottom"@ || key == "b"@ {
            match scan::parse_bool_spec(value) {
                Some(v) => Ok(GlobalV { bottom: v, ..gc }),
                None => Err(ParseErrorV { line, kind: ErrorKind::InvalidBoolean }),
            }
        } else if key == "n_clickables"@ || key == "a"@ {
            match scan::parse_u32_spec(value) {
                Some(v) => Ok(GlobalV { n_clickables: Some(v), ..gc }),
                None => Err(ParseErrorV { line, kind: ErrorKind::InvalidNumber }),
            }
        } else if key == "underline_width"@ || key == "u"@ {
            match scan::parse_u32_spec(value) {
                Some(v) => Ok(GlobalV { underline_width: Some(v), ..gc }),
                None => Err(ParseErrorV { line, kind: ErrorKind::InvalidNumber }),
            }
        } else if key == "separator"@ {
            Ok(GlobalV { separator: Some(value), ..gc })
        } else if key == "geometry"@ || key == "g"@ {
            Ok(GlobalV { base_geometry: Some(value), ..gc })
        } else if key == "name"@ || key == "n"@ {
            Ok(GlobalV { name: Some(value), ..gc })
        } else {
            Ok(gc)
        }
    }
}

/// Applies one global option line to the configuration.
fn apply_global_opt_exec(gc: GlobalConfig, opt: &str) -> (r: Result<GlobalConfig, ParseError>)
    ensures
        match r {
            Ok(g2) => apply_global_opt(gc@, opt@) == Ok::<GlobalV, ParseErrorV>(g2@),
            Err(e) => apply_global_opt(gc@, opt@) == Err::<GlobalV, ParseErrorV>(e@),
        },
{
    let n = opt.unicode_len();
    let i = scan::find_char(opt, ':');
    proof {
        scan::lemma_first_at_props(opt@, ':');
    }
    if i == n {
        return Err(ParseError::new(opt, ErrorKind::MissingSeparator));
    }
    let key = clean_key_exec(opt.substring_char(0, i));
    let value = clean_value_exec(opt.substring_char(i + 1, n));
    if scan::str_eq(key, "background") || scan::str_eq(key, "bg") || scan::str_eq(key, "B") {
        match Color::from_str(value) {
            Ok(c) => Ok(GlobalConfig { background: Some(c), ..gc }),
            Err(e) => Err(ParseError::new(opt, ErrorKind::InvalidColor(e))),
        }
    } else if scan::str_eq(key, "foreground") || scan::str_eq(key, "fg") || scan::str_eq(
        key,
        "F",
    ) {
        match Color::from_str(value) {
            Ok(c) => Ok(GlobalConfig { foreground: Some(c), ..gc }),
            Err(e) => Err(ParseError::new(opt, ErrorKind::InvalidColor(e))),
        }
    } else if scan::str_eq(key, "underline") || scan::str_eq(key, "un") || scan::str_eq(
        key,
        "U",
    ) {
        match Color::from_str(value) {
            Ok(c) => Ok(GlobalConfig { underline: Some(c), ..gc }),
            Err(e) => Err(ParseError::new(opt, ErrorKind::InvalidColor(e))),
        }
    } else if scan::str_eq(key, "font") || scan::str_eq(key, "f") {
        Ok(GlobalConfig { font: Some(Font::new(value)), ..gc })
    } else if scan::str_eq(key, "bottom") || scan::str_eq(key, "b") {
        match scan::parse_bool(value) {
            Some(v) => Ok(GlobalConfig { bottom: v, ..gc }),
            None => Err(ParseError::new(opt, ErrorKind::InvalidBoolean)),
        }
    } else if scan::str_eq(key, "n_clickables") || scan::str_eq(key, "a") {
        match scan::parse_u32(value) {
            Some(v) => Ok(GlobalConfig { n_clickables: Some(v), ..gc }),
            None => Err(ParseError::new(opt, ErrorKind::InvalidNumber)),
        }
    } else if scan::str_eq(key, "underline_width") || scan::str_eq(key, "u") {
        match scan::parse_u32(value) {
            Some(v) => Ok(GlobalConfig { underline_width: Some(v), ..gc }),
            None => Err(ParseError::new(opt, ErrorKind::InvalidNumber)),
        }
    } else if scan::str_eq(key, "separator") {
        Ok(GlobalConfig { separator: Some(value.to_owned()), ..gc })
    } else if scan::str_eq(key, "geometry") || scan::str_eq(key, "g") {
        Ok(GlobalConfig { base_geometry: Some(value.to_owned()), ..gc })
    } else if scan::str_eq(key, "name") || scan::str_eq(key, "n") {
        Ok(GlobalConfig { name: Some(value.to_owned()), ..gc })
    } else {
        Ok(gc)
    }
}

/// Folds the global option lines over the configuration, skipping blank
/// lines and stopping at the first error.
pub open spec fn parse_global_lines(gc: GlobalV, lines: Seq<Seq<char>>) -> Result<
    GlobalV,
    ParseErrorV,
>
    decreases lines.len(),
{
    if lines.len() == 0 {
        Ok(gc)
    } else if scan::line_blank(lines[0]) {
        parse_global_lines(gc, lines.drop_first())
    } else {
        match apply_global_opt(gc, lines[0]) {
            Ok(g2) => parse_global_lines(g2, lines.drop_first()),
            Err(e) => Err(e),
        }
    }
}

/// How the global section is read: the same line grammar as a block section,
/// with the global key set and no required field.
pub open spec fn parse_global_spec(s: Seq<char>) -> Result<GlobalV, ParseErrorV> {
    parse_global_lines(GlobalV::init(), scan::split_lines(s))
}

impl GlobalConfig {
    /// Reads the global section.
    pub fn try_from(globals: &str) -> (r: Result<GlobalConfig, ParseError>)
        ensures
            match r {
                Ok(gc) => parse_global_spec(globals@) == Ok::<GlobalV, ParseErrorV>(gc@),
                Err(e) => parse_global_spec(globals@) == Err::<GlobalV, ParseErrorV>(e@),
            },
    {
        let lines = scan::split_lines_vec(globals);
        let ghost all = scan::split_lines(globals@);
        let mut gc = GlobalConfig::default();
        let nl = lines.len();
        let mut idx: usize = 0;
        proof {
            assert(all.skip(0) =~= all);
        }
        while idx < nl
            invariant
                0 <= idx <= nl,
                nl == all.len(),
                all == scan::split_lines(globals@),
                lines.deep_view() == all,
                parse_global_lines(GlobalV::init(), all) == parse_global_lines(
                    gc@,
                    all.skip(idx as int),
                ),
            decreases nl - idx,
        {
            let ghost rest = all.skip(idx as int);
            proof {
                assert(lines.deep_view()[idx as int] == lines@[idx as int]@);
                assert(rest[0] == all[idx as int]);
                assert(rest.drop_first() =~= all.skip(idx + 1));
            }
            let line = &lines[idx];
            if !scan::is_blank(line.as_str()) {
                gc = match apply_global_opt_exec(gc, line.as_str()) {
                    Ok(g2) => g2,
                    Err(e) => {
                        return Err(e);
                    },
                };
            }
            idx = idx + 1;
        }
        proof {
            assert(all.skip(nl as int) =~= Seq::<Seq<char>>::empty());
        }
        Ok(gc)
    }
}

// ---------------------------------------------------------------------------
// the whole configuration
// ---------------------------------------------------------------------------

/// The views of a sequence of blocks.
pub open spec fn blocks_view(v: Seq<Block>) -> Seq<BlockV> {
    v.map_values(|b: Block| b@)
}

/// The blocks of a declaration sequence that fall in one group, in order.
pub open spec fn group_of(blocks: Seq<BlockV>, a: Alignment) -> Seq<BlockV> {
    blocks.filter(|b: BlockV| b.alignment == a)
}

/// Appending a block extends its own group at the end and leaves the other
/// groups alone.
pub proof fn lemma_group_push(blocks: Seq<BlockV>, b: BlockV, a: Alignment)
    ensures
        group_of(blocks.push(b), a) == if b.alignment == a {
            group_of(blocks, a).push(b)
        } else {
            group_of(blocks, a)
        },
{
    broadcast use vstd::seq_lib::group_seq_lib_default;

    assert(blocks.push(b) =~= blocks + seq![b]);
    assert(group_of(Seq::<BlockV>::empty(), a) =~= Seq::<BlockV>::empty());
    assert(seq![b].drop_last() =~= Seq::<BlockV>::empty());
    assert(seq![b].last() == b);
    reveal_with_fuel(Seq::filter, 3);
    if b.alignment == a {
        assert(group_of(seq![b], a) =~= seq![b]);
        assert(group_of(blocks, a) + seq![b] =~= group_of(blocks, a).push(b));
    } else {
        assert(group_of(seq![b], a) =~= Seq::<BlockV>::empty());
        assert(group_of(blocks, a) + Seq::<BlockV>::empty() =~= group_of(blocks, a));
    }
}

/// The parsed blocks, grouped by the alignment each declared; insertion
/// order within each group is declaration order.
#[derive(Debug)]
pub struct Config {
    pub left: Vec<Block>,
    pub middle: Vec<Block>,
    pub right: Vec<Block>,
}

#[verifier::ext_equal]
pub struct ConfigV {
    pub left: Seq<BlockV>,
    pub middle: Seq<BlockV>,
    pub right: Seq<BlockV>,
}

impl View for Config {
    type V = ConfigV;

    open spec fn view(&self) -> ConfigV {
        ConfigV {
            left: blocks_view(self.left@),
            middle: blocks_view(self.middle@),
            right: blocks_view(self.right@),
        }
    }
}

impl ConfigV {
    pub open spec fn group(self, a: Alignment) -> Seq<BlockV> {
        match a {
            Alignment::Left => self.left,
            Alignment::Middle => self.middle,
            Alignment::Right => self.right,
        }
    }
}

impl Config {
    /// The blocks of one group; a group is present only when at least one
    /// block declared its alignment.
    pub fn get(&self, alignment: Alignment) -> (r: Option<&Vec<Block>>)
        ensures
            match r {
                Some(v) => self@.group(alignment).len() > 0 && blocks_view(v@) == self@.group(
                    alignment,
                ),
                None => self@.group(alignment).len() == 0,
            },
    {
        let v = match alignment {
            Alignment::Left => &self.left,
            Alignment::Middle => &self.middle,
            Alignment::Right => &self.right,
        };
        if v.len() > 0 {
            Some(v)
        } else {
            None
        }
    }
}

/// Reads the block sections in declaration order; the first error aborts.
pub open spec fn parse_blocks_spec(sections: Seq<Seq<char>>, n_monitor: int) -> Result<
    Seq<BlockV>,
    ParseErrorV,
>
    decreases sections.len(),
{
    if sections.len() == 0 {
        Ok(Seq::empty())
    } else {
        match parse_block_spec(sections[0], n_monitor) {
            Ok(b) => match parse_blocks_spec(sections.drop_first(), n_monitor) {
                Ok(rest) => Ok(seq![b] + rest),
                Err(e) => Err(e),
            },
            Err(e) => Err(e),
        }
    }
}

/// How a whole configuration text is read: the text is split on the block
/// separator; the first section is the global section; every further section
/// is one block, in declaration order.
pub open spec fn parse_config_spec(s: Seq<char>, n_monitor: int) -> Result<
    (GlobalV, Seq<BlockV>),
    ParseErrorV,
> {
    let sections = scan::split_sections(s);
    match parse_global_spec(sections[0]) {
        Err(e) => Err(e),
        Ok(g) => match parse_blocks_spec(sections.drop_first(), n_monitor) {
            Err(e) => Err(e),
            Ok(bs) => Ok((g, bs)),
        },
    }
}

/// Reads a whole configuration text into the bar-wide defaults and the
/// blocks, grouped by alignment with declaration order kept within each
/// group.
#[verifier::rlimit(100)]
pub fn parse(config: &str, n_monitor: usize) -> (r: Result<(GlobalConfig, Config), ParseError>)
    ensures
        match r {
            Ok(gc) => parse_config_spec(config@, n_monitor as int) matches Ok(m) && gc.0@ == m.0
                && gc.1@.left == group_of(m.1, Alignment::Left) && gc.1@.middle == group_of(
                m.1,
                Alignment::Middle,
            ) && gc.1@.right == group_of(m.1, Alignment::Right),
            Err(e) => parse_config_spec(config@, n_monitor as int) matches Err(me) && me == e@,
        },
{
    let sections = scan::split_sections_vec(config);
    let ghost all = scan::split_sections(config@);
    proof {
        assert(all.len() >= 1);
        assert(sections.deep_view()[0] == sections@[0]@);
    }
    let global_config = match GlobalConfig::try_from(sections[0].as_str()) {
        Ok(g) => g,
        Err(e) => {
            return Err(e);
        },
    };
    let mut cfg = Config { left: Vec::new(), middle: Vec::new(), right: Vec::new() };
    let ghost mut done: Seq<BlockV> = Seq::empty();
    let ns = sections.len();
    let mut idx: usize = 1;
    proof {
        assert(blocks_view(cfg.left@) =~= group_of(done, Alignment::Left));
        assert(blocks_view(cfg.middle@) =~= group_of(done, Alignment::Middle));
        assert(blocks_view(cfg.right@) =~= group_of(done, Alignment::Right));
        if parse_blocks_spec(all.skip(1), n_monitor as int) is Ok {
            assert(done + parse_blocks_spec(all.skip(1), n_monitor as int)->Ok_0
                =~= parse_blocks_spec(all.skip(1), n_monitor as int)->Ok_0);
        }
    }
    while idx < ns
        invariant
            1 <= idx <= ns,
            ns == all.len(),
            all == scan::split_sections(config@),
            sections.deep_view() == all,
            blocks_view(cfg.left@) == group_of(done, Alignment::Left),
            blocks_view(cfg.middle@) == group_of(done, Alignment::Middle),
            blocks_view(cfg.right@) == group_of(done, Alignment::Right),
            parse_global_spec(all[0]) == Ok::<GlobalV, ParseErrorV>(global_config@),
            match parse_blocks_spec(all.skip(idx as int), n_monitor as int) {
                Ok(rest) => parse_blocks_spec(all.skip(1), n_monitor as int) == Ok::<
                    Seq<BlockV>,
                    ParseErrorV,
                >(done + rest),
                Err(e) => parse_blocks_spec(all.skip(1), n_monitor as int) == Err::<
                    Seq<BlockV>,
                    ParseErrorV,
                >(e),
            },
        decreases ns - idx,
    {
        let ghost rest = all.skip(idx as int);
        proof {
            assert(sections.deep_view()[idx as int] == sections@[idx as int]@);
            assert(rest[0] == all[idx as int]);
            assert(rest.drop_first() =~= all.skip(idx + 1));
        }
        let section = &sections[idx];
        let b = match Block::parse(section.as_str(), n_monitor) {
            Ok(b) => b,
            Err(e) => {
                return Err(e);
            },
        };
        let ghost bv = b@;
        let ghost pre_done = done;
        proof {
            done = done.push(bv);
            lemma_group_push(pre_done, bv, Alignment::Left);
            lemma_group_push(pre_done, bv, Alignment::Middle);
            lemma_group_push(pre_done, bv, Alignment::Right);
            let nrest = all.skip(idx + 1);
            if parse_blocks_spec(nrest, n_monitor as int) is Ok {
                assert(done + parse_blocks_spec(nrest, n_monitor as int)->Ok_0 =~= pre_done + (
                seq![bv] + parse_blocks_spec(nrest, n_monitor as int)->Ok_0));
            }
        }
        match b.alignment {
            Alignment::Left => {
                let ghost pre_vec = cfg.left@;
                cfg.left.push(b);
                proof {
                    assert(blocks_view(cfg.left@) =~= blocks_view(pre_vec).push(bv));
                }
            },
            Alignment::Middle => {
                let ghost pre_vec = cfg.middle@;
                cfg.middle.push(b);
                proof {
                    assert(blocks_view(cfg.middle@) =~= blocks_view(pre_vec).push(bv));
                }
            },
            Alignment::Right => {
                let ghost pre_vec = cfg.right@;
                cfg.right.push(b);
                proof {
                    assert(blocks_view(cfg.right@) =~= blocks_view(pre_vec).push(bv));
                }
            },
        }
        idx = idx + 1;
    }
    proof {
        assert(all.skip(ns as int) =~= Seq::<Seq<char>>::empty());
        assert(done + Seq::<BlockV>::empty() =~= done);
    }
    Ok((global_config, cfg))
}

} // verus!
