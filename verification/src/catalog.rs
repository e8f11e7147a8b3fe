//! The catalog of commands seen in captured traffic: how often each was
//! requested, answered or pushed, the codes of its answers, and the shapes
//! of its bodies, all within fixed bounds.
//!
//! A shape is kept as the compact JSON text of a body's outline, which the
//! caller writes; the catalog counts, bounds and deduplicates them.

use vstd::prelude::*;
use crate::proxy_capture::{DecodedEvent, Direction, FrameOpcode, CAPTURE_SCHEMA_VERSION, opt_text};

verus! {

/// The most commands a catalog keeps.
pub const MAX_CATALOG_COMMANDS: usize = 4096;

/// The most shapes a command keeps of each kind.
pub const MAX_CATALOG_SHAPES: usize = 32;

/// The most answer codes a command keeps.
pub const MAX_RESPONSE_CODES: usize = 64;

/// The most shapes a catalog keeps in all.
pub const MAX_CATALOG_SHAPE_COUNT: usize = 4096;

/// The most bytes the shapes of a catalog take in all.
pub const MAX_CATALOG_SCHEMA_BYTES: usize = 16777216;

/// The most bytes one shape may take.
pub const MAX_SINGLE_SHAPE_BYTES: usize = 65536;

/// What kind of message a shape describes.
#[derive(Clone, Copy, PartialEq, Eq, Structural)]
pub enum ShapeKind {
    Request,
    Response,
    Push,
}

/// What the catalog knows of one command.
pub struct CommandSummary {
    pub requests: u64,
    pub responses: u64,
    pub pushes: u64,
    pub codes: Vec<(String, u64)>,
    pub request_shapes: Vec<String>,
    pub response_shapes: Vec<String>,
    pub push_shapes: Vec<String>,
    pub overflow_shapes: u64,
}

/// What the catalog knows of one command, as plain values.
pub ghost struct SummaryView {
    pub requests: u64,
    pub responses: u64,
    pub pushes: u64,
    pub codes: Seq<(Seq<char>, u64)>,
    pub request_shapes: Seq<Seq<char>>,
    pub response_shapes: Seq<Seq<char>>,
    pub push_shapes: Seq<Seq<char>>,
    pub overflow_shapes: u64,
}

pub open spec fn texts(v: Seq<String>) -> Seq<Seq<char>> {
    v.map_values(|s: String| s@)
}

pub open spec fn code_views(v: Seq<(String, u64)>) -> Seq<(Seq<char>, u64)> {
    v.map_values(|c: (String, u64)| (c.0@, c.1))
}

impl View for CommandSummary {
    type V = SummaryView;

    open spec fn view(&self) -> SummaryView {
        SummaryView {
            requests: self.requests,
            responses: self.responses,
            pushes: self.pushes,
            codes: code_views(self.codes@),
            request_shapes: texts(self.request_shapes@),
            response_shapes: texts(self.response_shapes@),
            push_shapes: texts(self.push_shapes@),
            overflow_shapes: self.overflow_shapes,
        }
    }
}

/// The catalog of commands.
pub struct CommandCatalog {
    pub version: u8,
    pub unmatched_responses: u64,
    pub overflow_commands: u64,
    pub overflow_shapes: u64,
    pub shape_count: usize,
    pub schema_bytes_used: usize,
    pub commands: Vec<(String, CommandSummary)>,
}

/// The catalog, as plain values.
pub ghost struct CatalogView {
    pub unmatched_responses: u64,
    pub overflow_commands: u64,
    pub overflow_shapes: u64,
    pub shape_count: usize,
    pub schema_bytes_used: usize,
    pub commands: Seq<(Seq<char>, SummaryView)>,
}

pub open spec fn command_views(v: Seq<(String, CommandSummary)>) -> Seq<(Seq<char>, SummaryView)> {
    v.map_values(|c: (String, CommandSummary)| (c.0@, c.1@))
}

impl View for CommandCatalog {
    type V = CatalogView;

    open spec fn view(&self) -> CatalogView {
        CatalogView {
            unmatched_responses: self.unmatched_responses,
            overflow_commands: self.overflow_commands,
            overflow_shapes: self.overflow_shapes,
            shape_count: self.shape_count,
            schema_bytes_used: self.schema_bytes_used,
            commands: command_views(self.commands@),
        }
    }
}

/// A command seen for the first time.
pub open spec fn empty_summary() -> SummaryView {
    SummaryView {
        requests: 0,
        responses: 0,
        pushes: 0,
        codes: Seq::empty(),
        request_shapes: Seq::empty(),
        response_shapes: Seq::empty(),
        push_shapes: Seq::empty(),
        overflow_shapes: 0,
    }
}

/// Where a command is listed first, or -1.
pub open spec fn command_index(cs: Seq<(Seq<char>, SummaryView)>, cmd: Seq<char>) -> int
    decreases cs.len(),
{
    if cs.len() == 0 {
        -1
    } else {
        let i = command_index(cs.drop_last(), cmd);
        if i >= 0 {
            i
        } else if cs.last().0 == cmd {
            cs.len() - 1
        } else {
            -1
        }
    }
}

/// Where a code is listed first, or -1.
pub open spec fn code_index(cs: Seq<(Seq<char>, u64)>, code: Seq<char>) -> int
    decreases cs.len(),
{
    if cs.len() == 0 {
        -1
    } else {
        let i = code_index(cs.drop_last(), code);
        if i >= 0 {
            i
        } else if cs.last().0 == code {
            cs.len() - 1
        } else {
            -1
        }
    }
}

/// No counter of a command is at its largest value.
pub open spec fn summary_room(s: SummaryView) -> bool {
    &&& s.requests < u64::MAX
    &&& s.responses < u64::MAX
    &&& s.pushes < u64::MAX
    &&& s.overflow_shapes < u64::MAX
    &&& forall|i: int| 0 <= i < s.codes.len() ==> #[trigger] s.codes[i].1 < u64::MAX
}

/// No counter of the catalog is at its largest value, so it can take
/// another event.
pub open spec fn catalog_room(c: CatalogView) -> bool {
    &&& c.unmatched_responses < u64::MAX
    &&& c.overflow_commands < u64::MAX
    &&& c.overflow_shapes < u64::MAX
    &&& forall|i: int| 0 <= i < c.commands.len() ==> summary_room(#[trigger] c.commands[i].1)
}

impl CommandSummary {
    fn new() -> (r: Self)
        ensures
            r@ == empty_summary(),
    {
        let r = CommandSummary {
            requests: 0,
            responses: 0,
            pushes: 0,
            codes: Vec::new(),
            request_shapes: Vec::new(),
            response_shapes: Vec::new(),
            push_shapes: Vec::new(),
            overflow_shapes: 0,
        };
        assert(r@.codes =~= Seq::<(Seq<char>, u64)>::empty());
        assert(r@.request_shapes =~= Seq::<Seq<char>>::empty());
        assert(r@.response_shapes =~= Seq::<Seq<char>>::empty());
        assert(r@.push_shapes =~= Seq::<Seq<char>>::empty());
        r
    }

    fn has_room(&self) -> (r: bool)
        ensures
            r == summary_room(self@),
    {
        if self.requests == u64::MAX || self.responses == u64::MAX || self.pushes == u64::MAX
            || self.overflow_shapes == u64::MAX {
            return false;
        }
        let mut i: usize = 0;
        while i < self.codes.len()
            invariant
                i <= self.codes@.len(),
                forall|q: int| 0 <= q < i ==> #[trigger] self@.codes[q].1 < u64::MAX,
            decreases self.codes@.len() - i,
        {
            if self.codes[i].1 == u64::MAX {
                assert(self@.codes[i as int].1 == u64::MAX);
                return false;
            }
            i = i + 1;
        }
        true
    }
}

impl CommandCatalog {
    /// An empty catalog of the schema version this library writes.
    pub fn new() -> (r: Self)
        ensures
            r.version == CAPTURE_SCHEMA_VERSION,
            r@ == (CatalogView {
                unmatched_responses: 0,
                overflow_commands: 0,
                overflow_shapes: 0,
                shape_count: 0,
                schema_bytes_used: 0,
                commands: Seq::empty(),
            }),
    {
        let r = CommandCatalog {
            version: CAPTURE_SCHEMA_VERSION,
            unmatched_responses: 0,
            overflow_commands: 0,
            overflow_shapes: 0,
            shape_count: 0,
            schema_bytes_used: 0,
            commands: Vec::new(),
        };
        assert(r@.commands =~= Seq::<(Seq<char>, SummaryView)>::empty());
        r
    }

    /// Whether the catalog can take another event: no counter is at its
    /// largest value.
    pub fn has_room(&self) -> (r: bool)
        ensures
            r == catalog_room(self@),
    {
        if self.unmatched_responses == u64::MAX || self.overflow_commands == u64::MAX || self.overflow_shapes
            == u64::MAX {
            return false;
        }
        let mut i: usize = 0;
        while i < self.commands.len()
            invariant
                i <= self.commands@.len(),
                forall|q: int| 0 <= q < i ==> summary_room(#[trigger] self@.commands[q].1),
            decreases self.commands@.len() - i,
        {
            if !self.commands[i].1.has_room() {
                assert(self@.commands[i as int].1 == self.commands@[i as int].1@);
                return false;
            }
            assert(self@.commands[i as int].1 == self.commands@[i as int].1@);
            i = i + 1;
        }
        true
    }

    /// Where a command is listed, if it is.
    fn find(&self, cmd: &str) -> (r: Option<usize>)
        ensures
            match r {
                Some(i) => command_index(self@.commands, cmd@) == i,
                None => command_index(self@.commands, cmd@) == -1,
            },
    {
        let ghost cs = self@.commands;
        let mut i: usize = 0;
        while i < self.commands.len()
            invariant
                i <= self.commands@.len(),
                cs == self@.commands,
                command_index(cs.take(i as int), cmd@) == -1,
            decreases self.commands@.len() - i,
        {
            proof {
                assert(cs.take(i + 1).drop_last() =~= cs.take(i as int));
                assert(cs.take(i + 1).last() == cs[i as int]);
                assert(cs[i as int].0 == self.commands@[i as int].0@);
                lemma_command_index_prefix(cs, cmd@, i + 1);
            }
            if crate::protocol::str_eq(self.commands[i].0.as_str(), cmd) {
                return Some(i);
            }
            i = i + 1;
        }
        assert(cs.take(cs.len() as int) =~= cs);
        None
    }

    /// What the catalog knows of a command, if it knows it.
    pub fn command(&self, cmd: &str) -> (r: Option<&CommandSummary>)
        ensures
            ({
                let i = command_index(self@.commands, cmd@);
                if i >= 0 {
                    r matches Some(s) && s@ == self@.commands[i].1
                } else {
                    r is None
                }
            }),
    {
        proof {
            lemma_command_index_range(self@.commands, cmd@);
        }
        match self.find(cmd) {
            Some(i) => {
                assert(self@.commands[i as int] == (self.commands@[i as int].0@, self.commands@[i as int].1@));
                Some(&self.commands[i].1)
            },
            None => None,
        }
    }
}

proof fn lemma_command_index_prefix(cs: Seq<(Seq<char>, SummaryView)>, cmd: Seq<char>, n: int)
    requires
        0 <= n <= cs.len(),
    ensures
        command_index(cs.take(n), cmd) >= 0 ==> command_index(cs, cmd) == command_index(cs.take(n), cmd),
        command_index(cs.take(n), cmd) == -1 && n == cs.len() ==> command_index(cs, cmd) == -1,
    decreases cs.len() - n,
{
    if n < cs.len() {
        assert(cs.take(n + 1).drop_last() =~= cs.take(n));
        lemma_command_index_prefix(cs, cmd, n + 1);
    } else {
        assert(cs.take(n) =~= cs);
    }
}

proof fn lemma_command_index_range(cs: Seq<(Seq<char>, SummaryView)>, cmd: Seq<char>)
    ensures
        -1 <= command_index(cs, cmd) < cs.len(),
        command_index(cs, cmd) >= 0 ==> cs[command_index(cs, cmd)].0 == cmd,
        command_index(cs, cmd) == -1 ==> forall|q: int| 0 <= q < cs.len() ==> #[trigger] cs[q].0 != cmd,
    decreases cs.len(),
{
    if cs.len() > 0 {
        lemma_command_index_range(cs.drop_last(), cmd);
        assert forall|q: int| 0 <= q < cs.len() - 1 implies #[trigger] cs[q] == cs.drop_last()[q] by {}
    }
}

proof fn lemma_code_index_range(cs: Seq<(Seq<char>, u64)>, code: Seq<char>)
    ensures
        -1 <= code_index(cs, code) < cs.len(),
        code_index(cs, code) >= 0 ==> cs[code_index(cs, code)].0 == code,
        code_index(cs, code) == -1 ==> forall|q: int| 0 <= q < cs.len() ==> #[trigger] cs[q].0 != code,
    decreases cs.len(),
{
    if cs.len() > 0 {
        lemma_code_index_range(cs.drop_last(), code);
        assert forall|q: int| 0 <= q < cs.len() - 1 implies #[trigger] cs[q] == cs.drop_last()[q] by {}
    }
}

// ------------------------------------------------------------------
// What an event does to the catalog
// ------------------------------------------------------------------

/// The catalog with another summary at index `i`.
pub open spec fn with_summary(c: CatalogView, i: int, s: SummaryView) -> CatalogView {
    CatalogView {
        unmatched_responses: c.unmatched_responses,
        overflow_commands: c.overflow_commands,
        overflow_shapes: c.overflow_shapes,
        shape_count: c.shape_count,
        schema_bytes_used: c.schema_bytes_used,
        commands: c.commands.update(i, (c.commands[i].0, s)),
    }
}

/// The catalog once a command is listed: a known command as it was; a new
/// one joins with nothing counted unless the catalog is full, which counts
/// an overflow instead. The flag says whether the command is listed.
pub open spec fn ensured(c: CatalogView, cmd: Seq<char>) -> (CatalogView, bool) {
    if command_index(c.commands, cmd) >= 0 {
        (c, true)
    } else if c.commands.len() >= MAX_CATALOG_COMMANDS {
        (
            CatalogView {
                unmatched_responses: c.unmatched_responses,
                overflow_commands: (c.overflow_commands + 1) as u64,
                overflow_shapes: c.overflow_shapes,
                shape_count: c.shape_count,
                schema_bytes_used: c.schema_bytes_used,
                commands: c.commands,
            },
            false,
        )
    } else {
        (
            CatalogView {
                unmatched_responses: c.unmatched_responses,
                overflow_commands: c.overflow_commands,
                overflow_shapes: c.overflow_shapes,
                shape_count: c.shape_count,
                schema_bytes_used: c.schema_bytes_used,
                commands: c.commands.push((cmd, empty_summary())),
            },
            true,
        )
    }
}

/// A summary with one more message of a kind counted.
pub open spec fn bumped(s: SummaryView, kind: ShapeKind) -> SummaryView {
    SummaryView {
        requests: if kind == ShapeKind::Request { (s.requests + 1) as u64 } else { s.requests },
        responses: if kind == ShapeKind::Response { (s.responses + 1) as u64 } else { s.responses },
        pushes: if kind == ShapeKind::Push { (s.pushes + 1) as u64 } else { s.pushes },
        codes: s.codes,
        request_shapes: s.request_shapes,
        response_shapes: s.response_shapes,
        push_shapes: s.push_shapes,
        overflow_shapes: s.overflow_shapes,
    }
}

/// How an answer code is written as a key.
pub open spec fn code_key(code: i32) -> Seq<char> {
    crate::b64::ascii_chars(crate::text::int_decimal(code as int))
}

/// A summary with an answer code counted: a known code counts once more; a
/// new one joins with a count of 1 while fewer than the most codes are kept.
pub open spec fn code_added(s: SummaryView, code: i32) -> SummaryView {
    let k = code_key(code);
    let i = code_index(s.codes, k);
    SummaryView {
        codes: if i >= 0 {
            s.codes.update(i, (k, (s.codes[i].1 + 1) as u64))
        } else if s.codes.len() < MAX_RESPONSE_CODES {
            s.codes.push((k, 1u64))
        } else {
            s.codes
        },
        ..s
    }
}

/// The catalog once a message of a command is counted, with its answer
/// code when it has one, and the shape still to record (the command and
/// kind, when the message has a body).
pub open spec fn counted(c: CatalogView, cmd: Seq<char>, kind: ShapeKind, code: Option<i32>, has_body: bool) -> (
    CatalogView,
    Option<(Seq<char>, ShapeKind)>,
) {
    let (c1, ok) = ensured(c, cmd);
    if !ok {
        (c1, None)
    } else {
        let i = command_index(c1.commands, cmd);
        let s1 = bumped(c1.commands[i].1, kind);
        let s2 = match code {
            Some(k) => code_added(s1, k),
            None => s1,
        };
        (with_summary(c1, i, s2), if has_body { Some((cmd, kind)) } else { None })
    }
}

/// The catalog once it has seen an event, and the shape still to record.
/// Only binary frames that decoded count: a request by its command (when it
/// has a number), an answer by the request it answers (one that answers no
/// known request counts as unmatched), a push by its command.
pub open spec fn observed(c: CatalogView, e: DecodedEvent) -> (CatalogView, Option<(Seq<char>, ShapeKind)>) {
    if e.decode_error is Some || e.opcode != FrameOpcode::Binary {
        (c, None)
    } else if e.direction == Direction::ClientToServer {
        if e.seq == 0 {
            (c, None)
        } else {
            match opt_text(e.cmd) {
                None => (c, None),
                Some(cmd) => counted(c, cmd, ShapeKind::Request, None, e.body is Some),
            }
        }
    } else if e.resp > 0 {
        match opt_text(e.matched_request) {
            None => (
                CatalogView {
                    unmatched_responses: (c.unmatched_responses + 1) as u64,
                    overflow_commands: c.overflow_commands,
                    overflow_shapes: c.overflow_shapes,
                    shape_count: c.shape_count,
                    schema_bytes_used: c.schema_bytes_used,
                    commands: c.commands,
                },
                None,
            ),
            Some(m) => counted(c, m, ShapeKind::Response, e.code, e.body is Some),
        }
    } else {
        match opt_text(e.cmd) {
            None => (c, None),
            Some(cmd) => counted(c, cmd, ShapeKind::Push, e.code, e.body is Some),
        }
    }
}

/// The shapes of a kind that a summary keeps.
pub open spec fn shapes_of(s: SummaryView, kind: ShapeKind) -> Seq<Seq<char>> {
    match kind {
        ShapeKind::Request => s.request_shapes,
        ShapeKind::Response => s.response_shapes,
        ShapeKind::Push => s.push_shapes,
    }
}

/// A summary with other shapes of a kind.
pub open spec fn with_shapes(s: SummaryView, kind: ShapeKind, v: Seq<Seq<char>>) -> SummaryView {
    SummaryView {
        request_shapes: if kind == ShapeKind::Request { v } else { s.request_shapes },
        response_shapes: if kind == ShapeKind::Response { v } else { s.response_shapes },
        push_shapes: if kind == ShapeKind::Push { v } else { s.push_shapes },
        ..s
    }
}

/// Whether a new shape goes over a bound: the command's shapes of its kind,
/// the size of one shape, the number of shapes, or the bytes of all shapes.
pub open spec fn shape_over_limit(c: CatalogView, kept: nat, bytes: nat) -> bool {
    kept >= MAX_CATALOG_SHAPES || bytes > MAX_SINGLE_SHAPE_BYTES || c.shape_count >= MAX_CATALOG_SHAPE_COUNT
        || c.schema_bytes_used + bytes > MAX_CATALOG_SCHEMA_BYTES
}

/// The catalog once a shape of a command's message is recorded: a shape
/// already kept changes nothing; one over a bound counts an overflow, for
/// the catalog and the command; else it is kept and its bytes counted.
pub open spec fn recorded(c: CatalogView, cmd: Seq<char>, kind: ShapeKind, shape: Seq<char>) -> CatalogView {
    let i = command_index(c.commands, cmd);
    let s = c.commands[i].1;
    let kept = shapes_of(s, kind);
    let bytes = vstd::utf8::encode_utf8(shape).len();
    if kept.contains(shape) {
        c
    } else if shape_over_limit(c, kept.len(), bytes) {
        CatalogView {
            overflow_shapes: (c.overflow_shapes + 1) as u64,
            commands: c.commands.update(
                i,
                (c.commands[i].0, SummaryView { overflow_shapes: (s.overflow_shapes + 1) as u64, ..s }),
            ),
            ..c
        }
    } else {
        CatalogView {
            shape_count: (c.shape_count + 1) as usize,
            schema_bytes_used: (c.schema_bytes_used + bytes) as usize,
            commands: c.commands.update(i, (c.commands[i].0, with_shapes(s, kind, kept.push(shape)))),
            ..c
        }
    }
}

fn code_position(codes: &Vec<(String, u64)>, key: &str) -> (r: Option<usize>)
    ensures
        match r {
            Some(i) => code_index(code_views(codes@), key@) == i,
            None => code_index(code_views(codes@), key@) == -1,
        },
{
    let ghost cs = code_views(codes@);
    let mut i: usize = 0;
    while i < codes.len()
        invariant
            i <= codes@.len(),
            cs == code_views(codes@),
            code_index(cs.take(i as int), key@) == -1,
        decreases codes@.len() - i,
    {
        proof {
            assert(cs.take(i + 1).drop_last() =~= cs.take(i as int));
            assert(cs.take(i + 1).last() == cs[i as int]);
            lemma_code_index_prefix(cs, key@, i + 1);
        }
        if crate::protocol::str_eq(codes[i].0.as_str(), key) {
            return Some(i);
        }
        i = i + 1;
    }
    assert(cs.take(cs.len() as int) =~= cs);
    None
}

proof fn lemma_code_index_prefix(cs: Seq<(Seq<char>, u64)>, code: Seq<char>, n: int)
    requires
        0 <= n <= cs.len(),
    ensures
        code_index(cs.take(n), code) >= 0 ==> code_index(cs, code) == code_index(cs.take(n), code),
        code_index(cs.take(n), code) == -1 && n == cs.len() ==> code_index(cs, code) == -1,
    decreases cs.len() - n,
{
    if n < cs.len() {
        assert(cs.take(n + 1).drop_last() =~= cs.take(n));
        lemma_code_index_prefix(cs, code, n + 1);
    } else {
        assert(cs.take(n) =~= cs);
    }
}

impl CommandSummary {
    fn bump(&mut self, kind: ShapeKind)
        requires
            summary_room(old(self)@),
        ensures
            final(self)@ == bumped(old(self)@, kind),
    {
        match kind {
            ShapeKind::Request => {
                self.requests = self.requests + 1;
            },
            ShapeKind::Response => {
                self.responses = self.responses + 1;
            },
            ShapeKind::Push => {
                self.pushes = self.pushes + 1;
            },
        }
    }

    fn add_code(&mut self, code: i32)
        requires
            forall|q: int| 0 <= q < old(self)@.codes.len() ==> #[trigger] old(self)@.codes[q].1 < u64::MAX,
        ensures
            final(self)@ == code_added(old(self)@, code),
    {
        let key = crate::text::int_text(code as i64);
        proof {
            lemma_code_index_range(self@.codes, key@);
        }
        match code_position(&self.codes, key.as_str()) {
            Some(i) => {
                let n = self.codes[i].1;
                assert(self@.codes[i as int] == (self.codes@[i as int].0@, self.codes@[i as int].1));
                let ghost before = self.codes@;
                self.codes.set(i, (key, n + 1));
                assert(code_views(self.codes@) =~= code_views(before).update(
                    i as int,
                    (code_key(code), (n + 1) as u64),
                ));
            },
            None => {
                if self.codes.len() < MAX_RESPONSE_CODES {
                    let ghost before = self.codes@;
                    self.codes.push((key, 1));
                    assert(code_views(self.codes@) =~= code_views(before).push((code_key(code), 1u64)));
                }
            },
        }
    }
}

impl CommandCatalog {
    fn ensure_command(&mut self, cmd: &str) -> (ok: bool)
        requires
            catalog_room(old(self)@),
        ensures
            (final(self)@, ok) == ensured(old(self)@, cmd@),
            final(self).version == old(self).version,
    {
        match self.find(cmd) {
            Some(_) => true,
            None => {
                if self.commands.len() >= MAX_CATALOG_COMMANDS {
                    self.overflow_commands = self.overflow_commands + 1;
                    false
                } else {
                    let ghost before = self.commands@;
                    self.commands.push((String::from_str(cmd), CommandSummary::new()));
                    assert(command_views(self.commands@) =~= command_views(before).push((cmd@, empty_summary())));
                    true
                }
            },
        }
    }

    fn count(&mut self, cmd: &str, kind: ShapeKind, code: Option<i32>, has_body: bool) -> (r: Option<(String, ShapeKind)>)
        requires
            catalog_room(old(self)@),
        ensures
            ({
                let (c, shape) = counted(old(self)@, cmd@, kind, code, has_body);
                &&& final(self)@ == c
                &&& match shape {
                    Some((n, k)) => r matches Some((x, y)) && x@ == n && y == k,
                    None => r is None,
                }
            }),
            final(self).version == old(self).version,
    {
        let ghost c0 = self@;
        let ok = self.ensure_command(cmd);
        if !ok {
            return None;
        }
        proof {
            lemma_command_index_range(self@.commands, cmd@);
            if command_index(c0.commands, cmd@) < 0 {
                assert(self@.commands.last().0 == cmd@);
            }
        }
        let i = match self.find(cmd) {
            Some(i) => i,
            None => {
                proof {
                    if command_index(c0.commands, cmd@) < 0 {
                        assert(self@.commands[self@.commands.len() - 1].0 == cmd@);
                    }
                }
                return None;
            },
        };
        let ghost c1 = self@;
        assert(c1.commands[i as int] == (self.commands@[i as int].0@, self.commands@[i as int].1@));
        proof {
            assert(catalog_room(c1)) by {
                if command_index(c0.commands, cmd@) < 0 {
                    assert forall|q: int| 0 <= q < c1.commands.len() implies summary_room(#[trigger] c1.commands[q].1) by {
                        if q < c0.commands.len() {
                            assert(c1.commands[q] == c0.commands[q]);
                        }
                    }
                }
            }
            assert(summary_room(c1.commands[i as int].1));
        }
        let mut entry: (String, CommandSummary) = (String::new(), CommandSummary::new());
        let ghost g0 = self.commands@;
        self.commands.set_and_swap(i, &mut entry);
        entry.1.bump(kind);
        proof {
            assert forall|q: int| 0 <= q < entry.1@.codes.len() implies #[trigger] entry.1@.codes[q].1 < u64::MAX by {
                assert(entry.1@.codes == c1.commands[i as int].1.codes);
            }
        }
        match code {
            Some(k) => entry.1.add_code(k),
            None => {},
        }
        self.commands.set_and_swap(i, &mut entry);
        proof {
            assert(command_views(self.commands@) =~= c1.commands.update(
                i as int,
                (c1.commands[i as int].0, self.commands@[i as int].1@),
            ));
        }
        if has_body {
            Some((String::from_str(cmd), kind))
        } else {
            None
        }
    }

    /// Counts an event, and says which command's message shape is still to
    /// record (by [`CommandCatalog::record_shape`]) when the message has a
    /// body.
    pub fn observe(&mut self, event: &DecodedEvent) -> (r: Option<(String, ShapeKind)>)
        requires
            catalog_room(old(self)@),
        ensures
            ({
                let (c, shape) = observed(old(self)@, *event);
                &&& final(self)@ == c
                &&& match shape {
                    Some((n, k)) => r matches Some((x, y)) && x@ == n && y == k,
                    None => r is None,
                }
            }),
            final(self).version == old(self).version,
    {
        if event.decode_error.is_some() || event.opcode != FrameOpcode::Binary {
            return None;
        }
        match event.direction {
            Direction::ClientToServer => {
                if event.seq == 0 {
                    return None;
                }
                match &event.cmd {
                    Some(c) => self.count(c.as_str(), ShapeKind::Request, None, event.body.is_some()),
                    None => None,
                }
            },
            Direction::ServerToClient => {
                if event.resp > 0 {
                    match &event.matched_request {
                        Some(m) => self.count(m.as_str(), ShapeKind::Response, event.code, event.body.is_some()),
                        None => {
                            self.unmatched_responses = self.unmatched_responses + 1;
                            None
                        },
                    }
                } else {
                    match &event.cmd {
                        Some(c) => self.count(c.as_str(), ShapeKind::Push, event.code, event.body.is_some()),
                        None => None,
                    }
                }
            },
        }
    }
}

fn contains_text(v: &Vec<String>, t: &str) -> (r: bool)
    ensures
        r == texts(v@).contains(t@),
{
    let mut i: usize = 0;
    while i < v.len()
        invariant
            i <= v@.len(),
            forall|q: int| 0 <= q < i ==> #[trigger] texts(v@)[q] != t@,
        decreases v@.len() - i,
    {
        assert(texts(v@)[i as int] == v@[i as int]@);
        if crate::protocol::str_eq(v[i].as_str(), t) {
            return true;
        }
        i = i + 1;
    }
    false
}

impl CommandSummary {
    fn shapes(&self, kind: ShapeKind) -> (r: &Vec<String>)
        ensures
            texts(r@) == shapes_of(self@, kind),
    {
        match kind {
            ShapeKind::Request => &self.request_shapes,
            ShapeKind::Response => &self.response_shapes,
            ShapeKind::Push => &self.push_shapes,
        }
    }

    fn push_shape(&mut self, kind: ShapeKind, shape: String)
        ensures
            final(self)@ == with_shapes(old(self)@, kind, shapes_of(old(self)@, kind).push(shape@)),
    {
        match kind {
            ShapeKind::Request => {
                self.request_shapes.push(shape);
                assert(texts(self.request_shapes@) =~= texts(old(self).request_shapes@).push(shape@));
            },
            ShapeKind::Response => {
                self.response_shapes.push(shape);
                assert(texts(self.response_shapes@) =~= texts(old(self).response_shapes@).push(shape@));
            },
            ShapeKind::Push => {
                self.push_shapes.push(shape);
                assert(texts(self.push_shapes@) =~= texts(old(self).push_shapes@).push(shape@));
            },
        }
    }
}

impl CommandCatalog {
    /// Records the shape of a command's message of a kind: the compact JSON
    /// text of the outline of its body.
    pub fn record_shape(&mut self, cmd: &str, kind: ShapeKind, shape: String)
        requires
            command_index(old(self)@.commands, cmd@) >= 0,
            catalog_room(old(self)@),
        ensures
            final(self)@ == recorded(old(self)@, cmd@, kind, shape@),
            final(self).version == old(self).version,
    {
        let ghost c0 = self@;
        proof {
            lemma_command_index_range(c0.commands, cmd@);
        }
        let i = match self.find(cmd) {
            Some(i) => i,
            None => {
                return;
            },
        };
        assert(c0.commands[i as int] == (self.commands@[i as int].0@, self.commands@[i as int].1@));
        if contains_text(self.commands[i].1.shapes(kind), shape.as_str()) {
            return;
        }
        let bytes = shape.as_str().as_bytes().len();
        let kept = self.commands[i].1.shapes(kind).len();
        let over = kept >= MAX_CATALOG_SHAPES || bytes > MAX_SINGLE_SHAPE_BYTES || self.shape_count
            >= MAX_CATALOG_SHAPE_COUNT || self.schema_bytes_used > MAX_CATALOG_SCHEMA_BYTES - bytes;
        assert(over == shape_over_limit(c0, shapes_of(c0.commands[i as int].1, kind).len(), vstd::utf8::encode_utf8(shape@).len()));
        let mut entry: (String, CommandSummary) = (String::new(), CommandSummary::new());
        self.commands.set_and_swap(i, &mut entry);
        if over {
            self.overflow_shapes = self.overflow_shapes + 1;
            assert(summary_room(c0.commands[i as int].1));
            entry.1.overflow_shapes = entry.1.overflow_shapes + 1;
        } else {
            self.shape_count = self.shape_count + 1;
            self.schema_bytes_used = self.schema_bytes_used + bytes;
            entry.1.push_shape(kind, shape);
        }
        let ghost fresh = entry.1@;
        self.commands.set_and_swap(i, &mut entry);
        proof {
            assert(command_views(self.commands@) =~= c0.commands.update(
                i as int,
                (c0.commands[i as int].0, fresh),
            ));
        }
    }
}

/// Whether a catalog is within its bounds: commands, shapes in all, and
/// the bytes of all shapes.
pub open spec fn within_bounds(c: CatalogView) -> bool {
    &&& c.commands.len() <= MAX_CATALOG_COMMANDS
    &&& c.shape_count <= MAX_CATALOG_SHAPE_COUNT
    &&& c.schema_bytes_used <= MAX_CATALOG_SCHEMA_BYTES
}

/// The catalog stays within its bounds: counting an event, or recording a
/// shape of a listed command, keeps a catalog within its bounds within
/// them.
pub proof fn law_catalog_stays_bounded(
    c: CatalogView,
    e: DecodedEvent,
    cmd: Seq<char>,
    kind: ShapeKind,
    shape: Seq<char>,
)
    requires
        within_bounds(c),
    ensures
        within_bounds(observed(c, e).0),
        command_index(c.commands, cmd) >= 0 ==> within_bounds(recorded(c, cmd, kind, shape)),
{
    lemma_counted_bounded(c, ShapeKind::Request, None, e.body is Some);
    lemma_counted_bounded(c, ShapeKind::Response, e.code, e.body is Some);
    lemma_counted_bounded(c, ShapeKind::Push, e.code, e.body is Some);
    lemma_command_index_range(c.commands, cmd);
}

proof fn lemma_counted_bounded(c: CatalogView, kind: ShapeKind, code: Option<i32>, has_body: bool)
    requires
        within_bounds(c),
    ensures
        forall|cmd: Seq<char>| within_bounds(#[trigger] counted(c, cmd, kind, code, has_body).0),
{
    assert forall|cmd: Seq<char>| within_bounds(#[trigger] counted(c, cmd, kind, code, has_body).0) by {
        let (c1, ok) = ensured(c, cmd);
        lemma_command_index_range(c.commands, cmd);
        if ok {
            lemma_command_index_range(c1.commands, cmd);
            if command_index(c.commands, cmd) < 0 {
                assert(c1.commands[c1.commands.len() - 1].0 == cmd);
            }
        }
    }
}

} // verus!
