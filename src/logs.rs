//! An in-memory, queryable record of structured log events.
//!
//! Each execution context keeps its own [`SpanStack`] of open spans. Recording
//! an event into a [`LogCollector`] snapshots that stack, root first, beside the
//! event's own message and fields; records are kept in emission order.
use vstd::prelude::*;

verus! {

/// A field as numbers and text: its name and its value.
pub type FieldView = (Seq<char>, Seq<char>);

/// A span as text: its name and its fields.
pub struct SpanView {
    pub name: Seq<char>,
    pub fields: Seq<FieldView>,
}

/// Severity of an event.
#[derive(Debug, Clone, Copy, PartialEq, Eq, Structural)]
pub enum Level {
    Trace,
    Debug,
    Info,
    Warn,
    Error,
}

/// A named value attached to an event or a span.
#[derive(Debug)]
pub struct LogField {
    name: String,
    value: String,
}

impl View for LogField {
    type V = FieldView;

    closed spec fn view(&self) -> FieldView {
        (self.name@, self.value@)
    }
}

pub open spec fn fields_view(fs: Seq<LogField>) -> Seq<FieldView> {
    fs.map_values(|f: LogField| f@)
}

impl LogField {
    pub fn new(name: &str, value: &str) -> (r: LogField)
        ensures
            r@ == (name@, value@),
    {
        LogField { name: String::from_str(name), value: String::from_str(value) }
    }

    pub fn from_strings(name: String, value: String) -> (r: LogField)
        ensures
            r@ == (name@, value@),
    {
        LogField { name, value }
    }

    pub fn name(&self) -> (r: &str)
        ensures
            r@ == self@.0,
    {
        self.name.as_str()
    }

    pub fn value(&self) -> (r: &str)
        ensures
            r@ == self@.1,
    {
        self.value.as_str()
    }

    pub fn duplicate(&self) -> (r: LogField)
        ensures
            r@ == self@,
    {
        LogField { name: self.name.clone(), value: self.value.clone() }
    }
}

impl PartialEq for LogField {
    fn eq(&self, o: &LogField) -> (r: bool) {
        self.name == o.name && self.value == o.value
    }
}

impl vstd::std_specs::cmp::PartialEqSpecImpl for LogField {
    open spec fn obeys_eq_spec() -> bool {
        true
    }

    open spec fn eq_spec(&self, o: &LogField) -> bool {
        self@ == o@
    }
}

pub fn duplicate_fields(fs: &Vec<LogField>) -> (r: Vec<LogField>)
    ensures
        fields_view(r@) == fields_view(fs@),
{
    let mut out: Vec<LogField> = Vec::new();
    let mut i: usize = 0;
    while i < fs.len()
        invariant
            i <= fs@.len(),
            out@.len() == i,
            forall|k: int| 0 <= k < i ==> #[trigger] out@[k]@ == fs@[k]@,
        decreases fs@.len() - i,
    {
        out.push(fs[i].duplicate());
        i = i + 1;
    }
    assert(fields_view(out@) =~= fields_view(fs@));
    out
}

/// The first position at which `fs` has a field named `name`.
pub open spec fn first_field(fs: Seq<FieldView>, name: Seq<char>) -> Option<int>
    decreases fs.len(),
{
    if fs.len() == 0 {
        None
    } else {
        match first_field(fs.drop_last(), name) {
            Some(i) => Some(i),
            None => if fs.last().0 == name {
                Some(fs.len() - 1)
            } else {
                None
            },
        }
    }
}

/// The value of the first field named `name`.
pub open spec fn field_value(fs: Seq<FieldView>, name: Seq<char>) -> Option<Seq<char>> {
    match first_field(fs, name) {
        Some(i) => Some(fs[i].1),
        None => None,
    }
}

proof fn lemma_first_field_bounds(fs: Seq<FieldView>, name: Seq<char>)
    ensures
        first_field(fs, name) matches Some(i) ==> 0 <= i < fs.len() && fs[i].0 == name,
    decreases fs.len(),
{
    if fs.len() > 0 {
        lemma_first_field_bounds(fs.drop_last(), name);
    }
}

/// Finds the position of the first field named `name`.
pub fn position_of_field(fs: &Vec<LogField>, name: &str) -> (r: Option<usize>)
    ensures
        r is None <==> first_field(fields_view(fs@), name@) is None,
        r matches Some(i) ==> first_field(fields_view(fs@), name@) == Some(i as int) && i < fs@.len(),
{
    let wanted = String::from_str(name);
    let mut i: usize = 0;
    while i < fs.len()
        invariant
            i <= fs@.len(),
            wanted@ == name@,
            first_field(fields_view(fs@.take(i as int)), name@) is None,
        decreases fs@.len() - i,
    {
        let ghost pre = fields_view(fs@.take(i as int + 1));
        assert(pre.drop_last() =~= fields_view(fs@.take(i as int)));
        if fs[i].name == wanted {
            proof {
                lemma_first_field_prefix(fields_view(fs@), name@, (i + 1) as nat);
                assert(fields_view(fs@).take(i + 1) =~= pre);
            }
            return Some(i);
        }
        i = i + 1;
    }
    assert(fs@.take(i as int) =~= fs@);
    None
}

/// A field found in a prefix is the first one of the whole.
proof fn lemma_first_field_prefix(fs: Seq<FieldView>, name: Seq<char>, k: nat)
    requires
        k <= fs.len(),
        first_field(fs.take(k as int), name) is Some,
    ensures
        first_field(fs, name) == first_field(fs.take(k as int), name),
    decreases fs.len() - k,
{
    if k < fs.len() {
        assert(fs.take((k + 1) as int).drop_last() =~= fs.take(k as int));
        lemma_first_field_prefix(fs, name, k + 1);
    } else {
        assert(fs.take(k as int) =~= fs);
    }
}

/// One open span: its name and the fields it was created with.
#[derive(Debug)]
pub struct SpanData {
    name: String,
    fields: Vec<LogField>,
}

impl View for SpanData {
    type V = SpanView;

    closed spec fn view(&self) -> SpanView {
        SpanView { name: self.name@, fields: fields_view(self.fields@) }
    }
}

pub open spec fn spans_view(ss: Seq<SpanData>) -> Seq<SpanView> {
    ss.map_values(|s: SpanData| s@)
}

impl SpanData {
    pub fn new(name: &str, fields: Vec<LogField>) -> (r: SpanData)
        ensures
            r@ == (SpanView { name: name@, fields: fields_view(fields@) }),
    {
        SpanData { name: String::from_str(name), fields }
    }

    pub fn name(&self) -> (r: &str)
        ensures
            r@ == self@.name,
    {
        self.name.as_str()
    }

    pub fn fields(&self) -> (r: &Vec<LogField>)
        ensures
            fields_view(r@) == self@.fields,
    {
        &self.fields
    }

    pub fn duplicate(&self) -> (r: SpanData)
        ensures
            r@ == self@,
    {
        SpanData { name: self.name.clone(), fields: duplicate_fields(&self.fields) }
    }
}

pub fn duplicate_spans(ss: &Vec<SpanData>) -> (r: Vec<SpanData>)
    ensures
        spans_view(r@) == spans_view(ss@),
{
    let mut out: Vec<SpanData> = Vec::new();
    let mut i: usize = 0;
    while i < ss.len()
        invariant
            i <= ss@.len(),
            out@.len() == i,
            forall|k: int| 0 <= k < i ==> #[trigger] out@[k]@ == ss@[k]@,
        decreases ss@.len() - i,
    {
        out.push(ss[i].duplicate());
        i = i + 1;
    }
    assert(spans_view(out@) =~= spans_view(ss@));
    out
}

/// The first position at which `ss` has a span named `name`.
pub open spec fn first_span(ss: Seq<SpanView>, name: Seq<char>) -> Option<int>
    decreases ss.len(),
{
    if ss.len() == 0 {
        None
    } else {
        match first_span(ss.drop_last(), name) {
            Some(i) => Some(i),
            None => if ss.last().name == name {
                Some(ss.len() - 1)
            } else {
                None
            },
        }
    }
}

/// The value of the field `field` of the first span named `span`.
pub open spec fn span_field_value(ss: Seq<SpanView>, span: Seq<char>, field: Seq<char>) -> Option<Seq<char>> {
    match first_span(ss, span) {
        Some(i) => field_value(ss[i].fields, field),
        None => None,
    }
}

proof fn lemma_first_span_prefix(ss: Seq<SpanView>, name: Seq<char>, k: nat)
    requires
        k <= ss.len(),
        first_span(ss.take(k as int), name) is Some,
    ensures
        first_span(ss, name) == first_span(ss.take(k as int), name),
    decreases ss.len() - k,
{
    if k < ss.len() {
        assert(ss.take((k + 1) as int).drop_last() =~= ss.take(k as int));
        lemma_first_span_prefix(ss, name, k + 1);
    } else {
        assert(ss.take(k as int) =~= ss);
    }
}

/// A span whose name no earlier span has is the first of that name.
pub proof fn lemma_first_span_at(ss: Seq<SpanView>, name: Seq<char>, i: int)
    requires
        0 <= i < ss.len(),
        ss[i].name == name,
        forall|j: int| 0 <= j < i ==> ss[j].name != name,
    ensures
        first_span(ss, name) == Some(i),
    decreases ss.len(),
{
    if i < ss.len() - 1 {
        lemma_first_span_at(ss.drop_last(), name, i);
    } else {
        lemma_first_span_none(ss.drop_last(), name);
    }
}

proof fn lemma_first_span_none(ss: Seq<SpanView>, name: Seq<char>)
    requires
        forall|j: int| 0 <= j < ss.len() ==> ss[j].name != name,
    ensures
        first_span(ss, name) is None,
    decreases ss.len(),
{
    if ss.len() > 0 {
        lemma_first_span_none(ss.drop_last(), name);
    }
}

/// The spans open in one execution context, outermost first.
pub struct SpanStack {
    frames: Vec<SpanData>,
}

impl View for SpanStack {
    type V = Seq<SpanView>;

    closed spec fn view(&self) -> Seq<SpanView> {
        spans_view(self.frames@)
    }
}

impl SpanStack {
    pub fn new() -> (r: SpanStack)
        ensures
            r@ == Seq::<SpanView>::empty(),
    {
        let r = SpanStack { frames: Vec::new() };
        assert(r@ =~= Seq::<SpanView>::empty());
        r
    }

    /// Opens a span inside the current innermost one.
    pub fn enter(&mut self, span: SpanData)
        ensures
            final(self)@ == old(self)@.push(span@),
    {
        self.frames.push(span);
        assert(self@ =~= old(self)@.push(span@));
    }

    /// Closes the innermost span.
    pub fn exit(&mut self) -> (r: Option<SpanData>)
        ensures
            old(self)@.len() == 0 ==> r is None && final(self)@ == old(self)@,
            old(self)@.len() > 0 ==> (r matches Some(s) && s@ == old(self)@.last() && final(self)@
                == old(self)@.drop_last()),
    {
        let r = self.frames.pop();
        assert(old(self)@.len() > 0 ==> self@ =~= old(self)@.drop_last());
        r
    }

    pub fn depth(&self) -> (r: usize)
        ensures
            r == self@.len(),
    {
        self.frames.len()
    }

    pub fn frames(&self) -> (r: &Vec<SpanData>)
        ensures
            spans_view(r@) == self@,
    {
        &self.frames
    }
}

/// One recorded event, as text.
pub struct EntryView {
    pub timestamp: i64,
    pub level: Level,
    pub target: Seq<char>,
    pub message: Seq<char>,
    pub fields: Seq<FieldView>,
    pub spans: Seq<SpanView>,
}

/// One recorded event with the spans that enclosed it, outermost first.
pub struct LogEntry {
    timestamp: i64,
    level: Level,
    target: String,
    message: String,
    fields: Vec<LogField>,
    spans: Vec<SpanData>,
}

impl View for LogEntry {
    type V = EntryView;

    closed spec fn view(&self) -> EntryView {
        EntryView {
            timestamp: self.timestamp,
            level: self.level,
            target: self.target@,
            message: self.message@,
            fields: fields_view(self.fields@),
            spans: spans_view(self.spans@),
        }
    }
}

pub open spec fn entries_view(es: Seq<LogEntry>) -> Seq<EntryView> {
    es.map_values(|e: LogEntry| e@)
}

impl LogEntry {
    /// Milliseconds since the epoch when the event was recorded.
    pub fn timestamp(&self) -> (r: i64)
        ensures
            r == self@.timestamp,
    {
        self.timestamp
    }

    pub fn level(&self) -> (r: Level)
        ensures
            r == self@.level,
    {
        self.level
    }

    pub fn target(&self) -> (r: &str)
        ensures
            r@ == self@.target,
    {
        self.target.as_str()
    }

    pub fn message(&self) -> (r: &str)
        ensures
            r@ == self@.message,
    {
        self.message.as_str()
    }

    pub fn fields(&self) -> (r: &Vec<LogField>)
        ensures
            fields_view(r@) == self@.fields,
    {
        &self.fields
    }

    pub fn spans(&self) -> (r: &Vec<SpanData>)
        ensures
            spans_view(r@) == self@.spans,
    {
        &self.spans
    }

    /// The event's first field named `name`.
    pub fn field(&self, name: &str) -> (r: Option<&LogField>)
        ensures
            r is Some <==> first_field(self@.fields, name@) is Some,
            r matches Some(f) ==> field_value(self@.fields, name@) == Some(f@.1) && f@.0 == name@,
    {
        proof {
            lemma_first_field_bounds(self@.fields, name@);
        }
        match position_of_field(&self.fields, name) {
            Some(i) => {
                assert(first_field(self@.fields, name@) == Some(i as int));
                assert(self@.fields[i as int] == self.fields@[i as int]@);
                assert(field_value(self@.fields, name@) == Some(self.fields@[i as int]@.1));
                Some(&self.fields[i])
            },
            None => None,
        }
    }

    /// The first field named `field_name` of the outermost span named
    /// `span_name`.
    pub fn span_field(&self, span_name: &str, field_name: &str) -> (r: Option<&LogField>)
        ensures
            r is Some <==> span_field_value(self@.spans, span_name@, field_name@) is Some,
            r matches Some(f) ==> span_field_value(self@.spans, span_name@, field_name@) == Some(f@.1)
                && f@.0 == field_name@,
    {
        let wanted = String::from_str(span_name);
        let mut i: usize = 0;
        while i < self.spans.len()
            invariant
                i <= self.spans@.len(),
                wanted@ == span_name@,
                first_span(spans_view(self.spans@.take(i as int)), span_name@) is None,
            decreases self.spans@.len() - i,
        {
            let ghost pre = spans_view(self.spans@.take(i as int + 1));
            assert(pre.drop_last() =~= spans_view(self.spans@.take(i as int)));
            if self.spans[i].name == wanted {
                proof {
                    lemma_first_span_prefix(self@.spans, span_name@, (i + 1) as nat);
                    assert(self@.spans.take(i + 1) =~= pre);
                    lemma_first_field_bounds(self@.spans[i as int].fields, field_name@);
                }
                assert(self@.spans[i as int] == self.spans@[i as int]@);
                return match position_of_field(&self.spans[i].fields, field_name) {
                    Some(k) => {
                        assert(span_field_value(self@.spans, span_name@, field_name@) == Some(self@.spans[i as int].fields[k as int].1));
                        assert(self@.spans[i as int].fields[k as int] == self.spans@[i as int].fields@[k as int]@);
                        Some(&self.spans[i].fields[k])
                    },
                    None => None,
                };
            }
            i = i + 1;
        }
        assert(self.spans@.take(i as int) =~= self.spans@);
        None
    }

    pub fn duplicate(&self) -> (r: LogEntry)
        ensures
            r@ == self@,
    {
        LogEntry {
            timestamp: self.timestamp,
            level: self.level,
            target: self.target.clone(),
            message: self.message.clone(),
            fields: duplicate_fields(&self.fields),
            spans: duplicate_spans(&self.spans),
        }
    }
}

/// Whether the captured log is written out at the end of a run.
#[derive(Debug, Clone, Copy, PartialEq, Eq, Structural)]
pub enum WriteBehaviour {
    OnError,
    Always,
    Never,
}

/// Whether a run that did or did not fail writes its log out.
pub open spec fn writes_out(b: WriteBehaviour, has_error: bool) -> bool {
    match b {
        WriteBehaviour::OnError => has_error,
        WriteBehaviour::Always => true,
        WriteBehaviour::Never => false,
    }
}

impl WriteBehaviour {
    pub fn should_write(&self, has_error: bool) -> (r: bool)
        ensures
            r == writes_out(*self, has_error),
    {
        match self {
            WriteBehaviour::OnError => has_error,
            WriteBehaviour::Always => true,
            WriteBehaviour::Never => false,
        }
    }
}

/// The append-only record of one environment's events.
pub struct LogCollector {
    logs: Vec<LogEntry>,
    write_behaviour: WriteBehaviour,
}

impl LogCollector {
    pub closed spec fn entries(&self) -> Seq<EntryView> {
        entries_view(self.logs@)
    }

    /// The record at position `i`, in emission order.
    pub closed spec fn record_at(&self, i: int) -> LogEntry {
        self.logs@[i]
    }

    pub closed spec fn behaviour(&self) -> WriteBehaviour {
        self.write_behaviour
    }

    pub fn new() -> (r: LogCollector)
        ensures
            r.entries() == Seq::<EntryView>::empty(),
            r.behaviour() == WriteBehaviour::OnError,
    {
        let r = LogCollector { logs: Vec::new(), write_behaviour: WriteBehaviour::OnError };
        assert(r.entries() =~= Seq::<EntryView>::empty());
        r
    }

    /// Appends an event, with a snapshot of the spans open in its context.
    pub fn record(
        &mut self,
        stack: &SpanStack,
        timestamp: i64,
        level: Level,
        target: &str,
        message: &str,
        fields: Vec<LogField>,
    )
        ensures
            final(self).entries() == old(self).entries().push(
                EntryView {
                    timestamp,
                    level,
                    target: target@,
                    message: message@,
                    fields: fields_view(fields@),
                    spans: stack@,
                },
            ),
            final(self).behaviour() == old(self).behaviour(),
    {
        let entry = LogEntry {
            timestamp,
            level,
            target: String::from_str(target),
            message: String::from_str(message),
            fields,
            spans: duplicate_spans(&stack.frames),
        };
        self.logs.push(entry);
        assert(self.entries() =~= old(self).entries().push(entry@));
    }

    pub fn len(&self) -> (r: usize)
        ensures
            r == self.entries().len(),
    {
        self.logs.len()
    }

    pub fn entry(&self, i: usize) -> (r: &LogEntry)
        requires
            i < self.entries().len(),
        ensures
            r@ == self.entries()[i as int],
    {
        &self.logs[i]
    }

    /// A copy of every record, in emission order.
    pub fn get_all(&self) -> (r: Vec<LogEntry>)
        ensures
            entries_view(r@) == self.entries(),
    {
        let mut out: Vec<LogEntry> = Vec::new();
        let mut i: usize = 0;
        while i < self.logs.len()
            invariant
                i <= self.logs@.len(),
                out@.len() == i,
                forall|k: int| 0 <= k < i ==> #[trigger] out@[k]@ == self.logs@[k]@,
            decreases self.logs@.len() - i,
        {
            out.push(self.logs[i].duplicate());
            i = i + 1;
        }
        assert(entries_view(out@) =~= entries_view(self.logs@));
        out
    }

    /// The first record whose message is `message`.
    pub fn find_message(&self, message: &str) -> (r: Option<&LogEntry>)
        ensures
            r is None ==> forall|i: int| 0 <= i < self.entries().len() ==> #[trigger] self.entries()[i].message
                != message@,
            r matches Some(e) ==> exists|i: int|
                0 <= i < self.entries().len() && self.entries()[i] == e@ && e@.message == message@
                    && forall|j: int| 0 <= j < i ==> #[trigger] self.entries()[j].message != message@,
    {
        let wanted = String::from_str(message);
        let mut i: usize = 0;
        while i < self.logs.len()
            invariant
                i <= self.logs@.len(),
                wanted@ == message@,
                forall|j: int| 0 <= j < i ==> #[trigger] self.entries()[j].message != message@,
            decreases self.logs@.len() - i,
        {
            if self.logs[i].message == wanted {
                assert(self.entries()[i as int] == self.logs@[i as int]@);
                return Some(&self.logs[i]);
            }
            i = i + 1;
        }
        None
    }

    /// The first record that `f` accepts, asking `f` of each record in
    /// emission order.
    pub fn find<F: Fn(&LogEntry) -> bool>(&self, f: F) -> (r: Option<&LogEntry>)
        requires
            forall|e: &LogEntry| #[trigger] f.requires((e,)),
        ensures
            r is None ==> forall|i: int| 0 <= i < self.entries().len() ==> #[trigger] f.ensures((&self.record_at(i),), false),
            r matches Some(e) ==> f.ensures((e,), true) && exists|i: int|
                0 <= i < self.entries().len() && self.entries()[i] == e@,
    {
        let mut i: usize = 0;
        while i < self.logs.len()
            invariant
                i <= self.logs@.len(),
                forall|e: &LogEntry| #[trigger] f.requires((e,)),
                forall|j: int| 0 <= j < i ==> #[trigger] f.ensures((&self.record_at(j),), false),
            decreases self.logs@.len() - i,
        {
            let e = &self.logs[i];
            if f(e) {
                assert(self.entries()[i as int] == self.logs@[i as int]@);
                return Some(e);
            }
            i = i + 1;
        }
        None
    }

    /// Forgets every record.
    pub fn clear(&mut self)
        ensures
            final(self).entries() == Seq::<EntryView>::empty(),
            final(self).behaviour() == old(self).behaviour(),
    {
        self.logs.clear();
        assert(self.entries() =~= Seq::<EntryView>::empty());
    }

    pub fn write_behaviour(&self) -> (r: WriteBehaviour)
        ensures
            r == self.behaviour(),
    {
        self.write_behaviour
    }

    pub fn set_write_behaviour(&mut self, b: WriteBehaviour)
        ensures
            final(self).behaviour() == b,
            final(self).entries() == old(self).entries(),
    {
        self.write_behaviour = b;
    }

    pub fn write_always(&mut self)
        ensures
            final(self).behaviour() == WriteBehaviour::Always,
            final(self).entries() == old(self).entries(),
    {
        self.set_write_behaviour(WriteBehaviour::Always)
    }

    pub fn write_never(&mut self)
        ensures
            final(self).behaviour() == WriteBehaviour::Never,
            final(self).entries() == old(self).entries(),
    {
        self.set_write_behaviour(WriteBehaviour::Never)
    }

    pub fn write_on_error(&mut self)
        ensures
            final(self).behaviour() == WriteBehaviour::OnError,
            final(self).entries() == old(self).entries(),
    {
        self.set_write_behaviour(WriteBehaviour::OnError)
    }

    /// Hands the records over, for writing out.
    pub fn take(self) -> (r: Vec<LogEntry>)
        ensures
            entries_view(r@) == self.entries(),
    {
        self.logs
    }
}

/// Collects the values recorded on an event or a span: the one named
/// `message` is its message, the others its fields in the order recorded.
pub struct FieldVisitor {
    message: Option<String>,
    fields: Vec<LogField>,
}

impl FieldVisitor {
    pub closed spec fn spec_message(&self) -> Option<Seq<char>> {
        match self.message {
            Some(m) => Some(m@),
            None => None,
        }
    }

    pub closed spec fn spec_fields(&self) -> Seq<FieldView> {
        fields_view(self.fields@)
    }

    pub fn new() -> (r: FieldVisitor)
        ensures
            r.spec_message() is None,
            r.spec_fields() == Seq::<FieldView>::empty(),
    {
        let r = FieldVisitor { message: None, fields: Vec::new() };
        assert(r.spec_fields() =~= Seq::<FieldView>::empty());
        r
    }

    /// Records one value under its field name.
    pub fn record(&mut self, name: &str, value: String)
        ensures
            name@ == "message"@ ==> final(self).spec_message() == Some(value@) && final(self).spec_fields()
                == old(self).spec_fields(),
            name@ != "message"@ ==> final(self).spec_message() == old(self).spec_message()
                && final(self).spec_fields() == old(self).spec_fields().push((name@, value@)),
    {
        let key = String::from_str(name);
        let message_key = String::from_str("message");
        if key == message_key {
            self.message = Some(value);
        } else {
            let ghost before = self.fields@;
            self.fields.push(LogField::from_strings(key, value));
            assert(fields_view(self.fields@) =~= fields_view(before).push((name@, value@)));
        }
    }

    /// The message recorded, or an empty one.
    pub fn message_or_empty(&self) -> (r: String)
        ensures
            r@ == (match self.spec_message() {
                Some(m) => m,
                None => Seq::<char>::empty(),
            }),
    {
        match &self.message {
            Some(m) => m.clone(),
            None => String::new(),
        }
    }

    pub fn take_fields(self) -> (r: Vec<LogField>)
        ensures
            fields_view(r@) == self.spec_fields(),
    {
        self.fields
    }

    /// The span these values were recorded on: its fields, then its message,
    /// if any, as a field named `message`.
    pub fn into_span(self, name: &str) -> (r: SpanData)
        ensures
            r@.name == name@,
            r@.fields == (match self.spec_message() {
                Some(m) => self.spec_fields().push(("message"@, m)),
                None => self.spec_fields(),
            }),
    {
        let ghost before = self.spec_fields();
        let mut fields = self.fields;
        match self.message {
            Some(m) => {
                let ghost mv = m@;
                fields.push(LogField::from_strings(String::from_str("message"), m));
                assert(fields_view(fields@) =~= before.push(("message"@, mv)));
            },
            None => {},
        }
        SpanData::new(name, fields)
    }
}

} // verus!
