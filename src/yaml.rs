use vstd::prelude::*;

verus! {

/// The variant tag of a [`Field`], used to name what a decoder expected.
#[derive(Debug, Clone, Copy, PartialEq, Eq, Structural)]
pub enum FieldKind {
    Struct,
    List,
    Bool,
    Uint,
    Int,
    Float,
    Null,
    Str,
}

/// One node of a parsed document.
///
/// A struct node is an association list whose keys are unique; a float leaf
/// holds the IEEE-754 bit pattern of its value, which no decoder reads.
#[derive(Debug)]
pub enum Field {
    Struct(Vec<(String, Field)>),
    List(Vec<Field>),
    Bool(bool),
    Uint(u64),
    Int(i64),
    Float(u64),
    Null,
    Str(String),
}

/// The value stored under `key` in a struct node's entries (the first entry
/// with that key; keys of a well-formed node are unique).
pub open spec fn lookup(entries: Seq<(String, Field)>, key: Seq<char>) -> Option<Field>
    decreases entries.len(),
{
    if entries.len() == 0 {
        None
    } else if entries[0].0@ == key {
        Some(entries[0].1)
    } else {
        lookup(entries.drop_first(), key)
    }
}

/// Keys of a struct node's entries are pairwise distinct.
pub open spec fn keys_unique(entries: Seq<(String, Field)>) -> bool {
    forall|i: int, j: int|
        0 <= i < entries.len() && 0 <= j < entries.len() && i != j ==> #[trigger] entries[i].0@
            != #[trigger] entries[j].0@
}

/// With unique keys, a struct node behaves as a map: `key` is stored with
/// `value` exactly when some entry pairs them.
pub proof fn lookup_is_map_lookup(entries: Seq<(String, Field)>, key: Seq<char>, value: Field)
    requires
        keys_unique(entries),
    ensures
        lookup(entries, key) == Some(value) <==> exists|i: int| 0 <= i < entries.len() && #[trigger] entries[i].0@ == key && entries[i].1 == value,
    decreases entries.len(),
{
    if entries.len() > 0 {
        let rest = entries.drop_first();
        assert forall|i: int, j: int| 0 <= i < rest.len() && 0 <= j < rest.len() && i != j implies #[trigger] rest[i].0@ != #[trigger] rest[j].0@ by {
            assert(rest[i] == entries[i + 1] && rest[j] == entries[j + 1]);
        }
        lookup_is_map_lookup(rest, key, value);
        if exists|i: int| 0 <= i < entries.len() && #[trigger] entries[i].0@ == key && entries[i].1 == value {
            let i = choose|i: int| 0 <= i < entries.len() && #[trigger] entries[i].0@ == key && entries[i].1 == value;
            if i > 0 {
                assert(rest[i - 1] == entries[i]);
            }
        }
        if lookup(rest, key) == Some(value) && entries[0].0@ != key {
            let i = choose|i: int| 0 <= i < rest.len() && #[trigger] rest[i].0@ == key && rest[i].1 == value;
            assert(entries[i + 1] == rest[i]);
        }
    }
}

/// Appending an entry changes a lookup only for a key that was absent.
pub proof fn lookup_push(entries: Seq<(String, Field)>, e: (String, Field), key: Seq<char>)
    ensures
        lookup(entries.push(e), key) == (if lookup(entries, key) is Some {
            lookup(entries, key)
        } else if e.0@ == key {
            Some(e.1)
        } else {
            None
        }),
    decreases entries.len(),
{
    if entries.len() > 0 {
        assert(entries.push(e)[0] == entries[0]);
        assert(entries.push(e).drop_first() =~= entries.drop_first().push(e));
        lookup_push(entries.drop_first(), e, key);
    } else {
        assert(entries.push(e)[0] == e);
        assert(entries.push(e).drop_first() =~= Seq::<(String, Field)>::empty());
        assert(lookup(Seq::<(String, Field)>::empty(), key) is None);
    }
}

/// What went wrong while decoding.
#[derive(Debug, Clone, Copy, PartialEq, Eq, Structural)]
pub enum ErrorKind {
    /// A required key is absent from a struct node; the subject is the key.
    MissingKey,
    /// A key is present but holds another variant; the subject is the key.
    WrongType(FieldKind),
    /// A value that should have been decoded directly is of another variant.
    NotA(FieldKind),
    /// The packed `sequence` text does not hold `sequenceCount` digits.
    SequenceMismatch,
    /// A number does not fit in eight bits; the subject is its key.
    OutOfRange,
    /// Two assets declare the same opaque identifier; the subject is it.
    DuplicateGuid,
    /// Two assets declare the same character id; the subject is it.
    DuplicateNpcId,
    /// An event names an opaque identifier that no asset declared; the
    /// subject is the identifier and the context the event id.
    UnknownGuid,
    /// Any other failure, described by the subject.
    Other,
}

/// The mathematical content of a [`YamlError`]: its kind, the id of the
/// record being decoded (if known) and its subject.
pub type ErrView = (ErrorKind, Option<Seq<char>>, Seq<char>);

/// A decoding failure.
#[derive(Debug)]
pub struct YamlError {
    pub kind: ErrorKind,
    pub context: Option<String>,
    pub subject: String,
}

pub open spec fn opt_view(o: Option<String>) -> Option<Seq<char>> {
    match o {
        Some(s) => Some(s@),
        None => None,
    }
}

impl View for YamlError {
    type V = ErrView;

    open spec fn view(&self) -> ErrView {
        (self.kind, opt_view(self.context), self.subject@)
    }
}

/// The view of a decoding result.
pub open spec fn res_view<T: View>(r: Result<T, YamlError>) -> Result<T::V, ErrView> {
    match r {
        Ok(t) => Ok(t@),
        Err(e) => Err(e@),
    }
}

fn clone_context(context: Option<&String>) -> (r: Option<String>)
    ensures
        opt_view(r) == ctx_view(context),
{
    match context {
        Some(s) => Some(s.clone()),
        None => None,
    }
}

pub open spec fn ctx_view(context: Option<&String>) -> Option<Seq<char>> {
    match context {
        Some(s) => Some(s@),
        None => None,
    }
}

impl YamlError {
    /// An error of kind [`ErrorKind::Other`] carrying `msg`.
    pub fn new(msg: &str) -> (r: Self)
        ensures
            r@ == (ErrorKind::Other, None::<Seq<char>>, msg@),
    {
        YamlError { kind: ErrorKind::Other, context: None, subject: msg.to_owned() }
    }

    pub(crate) fn not_a(kind: FieldKind) -> (r: Self)
        ensures
            r@ == (ErrorKind::NotA(kind), None::<Seq<char>>, Seq::<char>::empty()),
    {
        YamlError { kind: ErrorKind::NotA(kind), context: None, subject: String::new() }
    }

    pub(crate) fn with(kind: ErrorKind, context: Option<&String>, subject: &str) -> (r: Self)
        ensures
            r@ == (kind, ctx_view(context), subject@),
    {
        YamlError { kind, context: clone_context(context), subject: subject.to_owned() }
    }
}

/// Finds the value stored under `key`, failing with [`ErrorKind::MissingKey`]
/// (prefixed by `context`) when it is absent.
pub fn get_field<'a>(entries: &'a Vec<(String, Field)>, key: &str, context: Option<&String>) -> (r:
    Result<&'a Field, YamlError>)
    ensures
        match r {
            Ok(f) => lookup(entries@, key@) == Some(*f),
            Err(e) => lookup(entries@, key@) is None && e@ == (
                ErrorKind::MissingKey,
                ctx_view(context),
                key@,
            ),
        },
{
    let k = key.to_owned();
    let mut i: usize = 0;
    assert(entries@.skip(0) =~= entries@);
    while i < entries.len()
        invariant
            0 <= i <= entries@.len(),
            k@ == key@,
            lookup(entries@, key@) == lookup(entries@.skip(i as int), key@),
        decreases entries@.len() - i,
    {
        assert(entries@.skip(i as int).drop_first() =~= entries@.skip(i as int + 1));
        if entries[i].0 == k {
            return Ok(&entries[i].1);
        }
        i = i + 1;
    }
    assert(entries@.skip(i as int).len() == 0);
    Err(YamlError::with(ErrorKind::MissingKey, context, key))
}


/// Reads `key` as an unsigned integer; no other variant is accepted.
pub open spec fn spec_get_uint(entries: Seq<(String, Field)>, key: Seq<char>, ctx: Option<Seq<char>>) -> Result<u64, ErrView> {
    match lookup(entries, key) {
        None => Err((ErrorKind::MissingKey, ctx, key)),
        Some(Field::Uint(n)) => Ok(n),
        Some(_) => Err((ErrorKind::WrongType(FieldKind::Uint), ctx, key)),
    }
}

/// Reads `key` as text.
pub open spec fn spec_get_str(entries: Seq<(String, Field)>, key: Seq<char>, ctx: Option<Seq<char>>) -> Result<Seq<char>, ErrView> {
    match lookup(entries, key) {
        None => Err((ErrorKind::MissingKey, ctx, key)),
        Some(Field::Str(s)) => Ok(s@),
        Some(_) => Err((ErrorKind::WrongType(FieldKind::Str), ctx, key)),
    }
}

/// Reads `key` as a struct node, giving its entries.
pub open spec fn spec_get_struct(entries: Seq<(String, Field)>, key: Seq<char>, ctx: Option<Seq<char>>) -> Result<Seq<(String, Field)>, ErrView> {
    match lookup(entries, key) {
        None => Err((ErrorKind::MissingKey, ctx, key)),
        Some(Field::Struct(m)) => Ok(m@),
        Some(_) => Err((ErrorKind::WrongType(FieldKind::Struct), ctx, key)),
    }
}

/// Reads `key` as a list.
pub open spec fn spec_get_list(entries: Seq<(String, Field)>, key: Seq<char>, ctx: Option<Seq<char>>) -> Result<Seq<Field>, ErrView> {
    match lookup(entries, key) {
        None => Err((ErrorKind::MissingKey, ctx, key)),
        Some(Field::List(l)) => Ok(l@),
        Some(_) => Err((ErrorKind::WrongType(FieldKind::List), ctx, key)),
    }
}

/// Reads `key` as an unsigned integer.
pub fn get_uint(entries: &Vec<(String, Field)>, key: &str, context: Option<&String>) -> (r: Result<u64, YamlError>)
    ensures
        res_view(r) == spec_get_uint(entries@, key@, ctx_view(context)),
{
    match get_field(entries, key, context)? {
        Field::Uint(n) => Ok(*n),
        _ => Err(YamlError::with(ErrorKind::WrongType(FieldKind::Uint), context, key)),
    }
}

/// Reads `key` as text.
pub fn get_str<'a>(entries: &'a Vec<(String, Field)>, key: &str, context: Option<&String>) -> (r: Result<&'a String, YamlError>)
    ensures
        match r {
            Ok(s) => spec_get_str(entries@, key@, ctx_view(context)) == Ok::<Seq<char>, ErrView>(s@),
            Err(e) => spec_get_str(entries@, key@, ctx_view(context)) == Err::<Seq<char>, ErrView>(e@),
        },
{
    match get_field(entries, key, context)? {
        Field::Str(s) => Ok(s),
        _ => Err(YamlError::with(ErrorKind::WrongType(FieldKind::Str), context, key)),
    }
}

/// Reads `key` as a struct node.
pub fn get_struct<'a>(entries: &'a Vec<(String, Field)>, key: &str, context: Option<&String>) -> (r: Result<&'a Vec<(String, Field)>, YamlError>)
    ensures
        match r {
            Ok(m) => spec_get_struct(entries@, key@, ctx_view(context)) == Ok::<Seq<(String, Field)>, ErrView>(m@),
            Err(e) => spec_get_struct(entries@, key@, ctx_view(context)) == Err::<Seq<(String, Field)>, ErrView>(e@),
        },
{
    match get_field(entries, key, context)? {
        Field::Struct(m) => Ok(m),
        _ => Err(YamlError::with(ErrorKind::WrongType(FieldKind::Struct), context, key)),
    }
}

/// Reads `key` as a list.
pub fn get_list<'a>(entries: &'a Vec<(String, Field)>, key: &str, context: Option<&String>) -> (r: Result<&'a Vec<Field>, YamlError>)
    ensures
        match r {
            Ok(l) => spec_get_list(entries@, key@, ctx_view(context)) == Ok::<Seq<Field>, ErrView>(l@),
            Err(e) => spec_get_list(entries@, key@, ctx_view(context)) == Err::<Seq<Field>, ErrView>(e@),
        },
{
    match get_field(entries, key, context)? {
        Field::List(l) => Ok(l),
        _ => Err(YamlError::with(ErrorKind::WrongType(FieldKind::List), context, key)),
    }
}


/// The name of a variant tag.
pub open spec fn kind_text(k: FieldKind) -> Seq<char> {
    match k {
        FieldKind::Struct => "Struct"@,
        FieldKind::List => "List"@,
        FieldKind::Bool => "Bool"@,
        FieldKind::Uint => "Uint"@,
        FieldKind::Int => "Int"@,
        FieldKind::Float => "Float"@,
        FieldKind::Null => "Null"@,
        FieldKind::Str => "Str"@,
    }
}

fn kind_str(k: FieldKind) -> (r: &'static str)
    ensures
        r@ == kind_text(k),
{
    match k {
        FieldKind::Struct => "Struct",
        FieldKind::List => "List",
        FieldKind::Bool => "Bool",
        FieldKind::Uint => "Uint",
        FieldKind::Int => "Int",
        FieldKind::Float => "Float",
        FieldKind::Null => "Null",
        FieldKind::Str => "Str",
    }
}

/// The prefix that names the record being decoded, if known.
pub open spec fn context_text(ctx: Option<Seq<char>>) -> Seq<char> {
    match ctx {
        Some(id) => "event "@ + id + ": "@,
        None => seq![],
    }
}

/// The message of an error.
pub open spec fn message_text(e: ErrView) -> Seq<char> {
    let (kind, ctx, subject) = e;
    match kind {
        ErrorKind::MissingKey => context_text(ctx) + "Field didn't contain `"@ + subject + "` key."@,
        ErrorKind::WrongType(k) => context_text(ctx) + "Field entry `"@ + subject + "` is not of type "@
            + kind_text(k) + "."@,
        ErrorKind::NotA(k) => "Field is not a "@ + kind_text(k),
        ErrorKind::SequenceMismatch => context_text(ctx) + "Failed to parse `"@ + subject + "` field."@,
        ErrorKind::OutOfRange => context_text(ctx) + "Field entry `"@ + subject
            + "`: out of range integral type conversion attempted"@,
        ErrorKind::DuplicateGuid => "Duplicate NPC Guid `"@ + subject + "`"@,
        ErrorKind::DuplicateNpcId => "Duplicate NPC id `"@ + subject + "`"@,
        ErrorKind::UnknownGuid => "Unknown NPC Guid `"@ + subject + "`"@ + match ctx {
            Some(id) => " in event `"@ + id + "`"@,
            None => seq![],
        },
        ErrorKind::Other => subject,
    }
}

impl YamlError {
    /// The error's message, naming the key or identifier at fault and, where
    /// known, the id of the record being decoded.
    pub fn message(&self) -> (r: String)
        ensures
            r@ == message_text(self@),
    {
        let mut ctx = String::new();
        if let Some(id) = &self.context {
            ctx.append("event ");
            ctx.append(id.as_str());
            ctx.append(": ");
        }
        assert(ctx@ =~= context_text(opt_view(self.context)));
        match self.kind {
            ErrorKind::MissingKey => {
                ctx.append("Field didn't contain `");
                ctx.append(self.subject.as_str());
                ctx.append("` key.");
                ctx
            },
            ErrorKind::WrongType(k) => {
                ctx.append("Field entry `");
                ctx.append(self.subject.as_str());
                ctx.append("` is not of type ");
                ctx.append(kind_str(k));
                ctx.append(".");
                ctx
            },
            ErrorKind::NotA(k) => {
                let mut out = String::from_str("Field is not a ");
                out.append(kind_str(k));
                out
            },
            ErrorKind::SequenceMismatch => {
                ctx.append("Failed to parse `");
                ctx.append(self.subject.as_str());
                ctx.append("` field.");
                ctx
            },
            ErrorKind::OutOfRange => {
                ctx.append("Field entry `");
                ctx.append(self.subject.as_str());
                ctx.append("`: out of range integral type conversion attempted");
                ctx
            },
            ErrorKind::DuplicateGuid => {
                let mut out = String::from_str("Duplicate NPC Guid `");
                out.append(self.subject.as_str());
                out.append("`");
                out
            },
            ErrorKind::DuplicateNpcId => {
                let mut out = String::from_str("Duplicate NPC id `");
                out.append(self.subject.as_str());
                out.append("`");
                out
            },
            ErrorKind::UnknownGuid => {
                let mut out = String::from_str("Unknown NPC Guid `");
                out.append(self.subject.as_str());
                out.append("`");
                let ghost before = out@;
                if let Some(id) = &self.context {
                    out.append(" in event `");
                    out.append(id.as_str());
                    out.append("`");
                    assert(out@ =~= before + (" in event `"@ + id@ + "`"@));
                } else {
                    assert(out@ =~= before + Seq::<char>::empty());
                }
                out
            },
            ErrorKind::Other => self.subject.clone(),
        }
    }
}

} // verus!
