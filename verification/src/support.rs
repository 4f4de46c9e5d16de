//! Supporting value types around the tokenizer: statuses and errors with
//! exact rendered messages, a builder-style configuration, a bounded
//! container, identifier newtypes, a cell-like wrapper, a step-polled
//! deferred value, and verified mapping and filtering over vectors.

use vstd::prelude::*;

use crate::text::{dec_str, int_str, push_str, u64_dec, i64_dec};

verus! {

/// The lifecycle of a unit of work.
#[derive(Debug, Clone, PartialEq, Eq, Hash)]
pub enum Status {
    Pending,
    Running { progress: u8 },
    Complete(String),
    Failed { code: i32, message: String },
}

/// The rendered message of a status, character for character.
pub open spec fn status_text(s: Status) -> Seq<char> {
    match s {
        Status::Pending => "Pending"@,
        Status::Running { progress } => "Running ("@ + dec_str(progress as nat) + "%)"@,
        Status::Complete(msg) => "Complete: "@ + msg@,
        Status::Failed { code, message } => "Failed ["@ + int_str(code as int) + "]: "@ + message@,
    }
}

impl Status {
    /// Renders the status for display.
    pub fn message(&self) -> (r: String)
        ensures
            r@ == status_text(*self),
    {
        let mut out = String::new();
        match self {
            Status::Pending => {
                push_str(&mut out, "Pending");
            },
            Status::Running { progress } => {
                push_str(&mut out, "Running (");
                let digits = u64_dec(*progress as u64);
                push_str(&mut out, digits.as_str());
                push_str(&mut out, "%)");
            },
            Status::Complete(msg) => {
                push_str(&mut out, "Complete: ");
                push_str(&mut out, msg.as_str());
            },
            Status::Failed { code, message } => {
                push_str(&mut out, "Failed [");
                let digits = i64_dec(*code as i64);
                push_str(&mut out, digits.as_str());
                push_str(&mut out, "]: ");
                push_str(&mut out, message.as_str());
            },
        }
        proof {
            assert(out@ =~= status_text(*self));
        }
        out
    }
}

/// What can go wrong around the tokenizer's collaborators. A transport
/// fault is carried as its rendered description.
#[derive(Debug)]
pub enum AppError {
    NotFound(String),
    InvalidInput { field: String, reason: String },
    NetworkError(String),
    SerializationError(String),
}

/// The rendered message of an error, character for character.
pub open spec fn error_text(e: AppError) -> Seq<char> {
    match e {
        AppError::NotFound(s) => "Not found: "@ + s@,
        AppError::InvalidInput { field, reason } => "Invalid input for '"@ + field@ + "': "@
            + reason@,
        AppError::NetworkError(s) => "Network error: "@ + s@,
        AppError::SerializationError(s) => "Serialization error: "@ + s@,
    }
}

impl AppError {
    /// Renders the error for display.
    pub fn message(&self) -> (r: String)
        ensures
            r@ == error_text(*self),
    {
        let mut out = String::new();
        match self {
            AppError::NotFound(s) => {
                push_str(&mut out, "Not found: ");
                push_str(&mut out, s.as_str());
            },
            AppError::InvalidInput { field, reason } => {
                push_str(&mut out, "Invalid input for '");
                push_str(&mut out, field.as_str());
                push_str(&mut out, "': ");
                push_str(&mut out, reason.as_str());
            },
            AppError::NetworkError(s) => {
                push_str(&mut out, "Network error: ");
                push_str(&mut out, s.as_str());
            },
            AppError::SerializationError(s) => {
                push_str(&mut out, "Serialization error: ");
                push_str(&mut out, s.as_str());
            },
        }
        proof {
            assert(out@ =~= error_text(*self));
        }
        out
    }
}

/// A builder-style connection configuration.
#[derive(Debug, Clone)]
pub struct Config<'a> {
    pub host: &'a str,
    pub port: u16,
    pub timeout_ms: u64,
    pub tags: Vec<String>,
}

impl<'a> Config<'a> {
    /// A configuration for `host` with the default port, the default
    /// timeout and no tags.
    pub fn new(host: &'a str) -> (r: Config<'a>)
        ensures
            r.host@ == host@,
            r.port == 8080,
            r.timeout_ms == 30000,
            r.tags@ == Seq::<String>::empty(),
    {
        Config { host, port: 8080, timeout_ms: 30_000, tags: Vec::new() }
    }

    /// The same configuration with the port replaced.
    pub fn with_port(self, port: u16) -> (r: Config<'a>)
        ensures
            r.host@ == self.host@,
            r.port == port,
            r.timeout_ms == self.timeout_ms,
            r.tags == self.tags,
    {
        let mut c = self;
        c.port = port;
        c
    }

    /// The same configuration with the timeout replaced.
    pub fn with_timeout(self, timeout_ms: u64) -> (r: Config<'a>)
        ensures
            r.host@ == self.host@,
            r.port == self.port,
            r.timeout_ms == timeout_ms,
            r.tags == self.tags,
    {
        let mut c = self;
        c.timeout_ms = timeout_ms;
        c
    }
}

/// A bounded container: pushes beyond the capacity it was created with
/// are refused.
pub struct Container<T> where T: Clone + Send + Sync {
    items: Vec<T>,
    capacity: usize,
}

impl<T> Container<T> where T: Clone + Send + Sync {
    /// The items held, oldest first.
    pub closed spec fn view(&self) -> Seq<T> {
        self.items@
    }

    /// The fixed capacity.
    pub closed spec fn cap(&self) -> int {
        self.capacity as int
    }

    /// An empty container that will accept `capacity` items.
    pub fn new(capacity: usize) -> (r: Container<T>)
        ensures
            r.view() == Seq::<T>::empty(),
            r.cap() == capacity,
    {
        Container { items: Vec::with_capacity(capacity), capacity }
    }

    /// Appends an item if there is room and reports whether it was taken.
    pub fn push(&mut self, item: T) -> (r: bool)
        ensures
            final(self).cap() == old(self).cap(),
            old(self).view().len() < old(self).cap() ==> r && final(self).view() == old(
                self,
            ).view().push(item),
            old(self).view().len() >= old(self).cap() ==> !r && final(self).view() == old(
                self,
            ).view(),
    {
        if self.items.len() < self.capacity {
            self.items.push(item);
            true
        } else {
            false
        }
    }

    /// Removes and returns the most recently pushed item.
    pub fn pop(&mut self) -> (r: Option<T>)
        ensures
            final(self).cap() == old(self).cap(),
            old(self).view().len() == 0 ==> r is None && final(self).view() == old(self).view(),
            old(self).view().len() > 0 ==> r == Some(old(self).view().last()) && final(self).view()
                == old(self).view().drop_last(),
    {
        self.items.pop()
    }

    /// The number of items held.
    pub fn len(&self) -> (r: usize)
        ensures
            r == self.view().len(),
    {
        self.items.len()
    }

    /// Whether nothing is held.
    pub fn is_empty(&self) -> (r: bool)
        ensures
            r == (self.view().len() == 0),
    {
        self.items.len() == 0
    }
}

/// Keyed storage of values of one kind.
pub trait Repository<T, ID> {
    fn find(&self, id: ID) -> Option<&T>;

    fn find_all(&self) -> Vec<&T>;

    fn save(&mut self, item: T) -> Result<(), AppError>;

    fn delete(&mut self, id: ID) -> Result<(), AppError>;
}

/// A value-to-value encoding with its own input, output and error types.
pub trait Encoder {
    type Input;

    type Output;

    type Error;

    fn encode(&self, input: Self::Input) -> Result<Self::Output, Self::Error>;
}

/// A user identifier carried as text.
pub struct UserId(String);

impl UserId {
    /// The identifier's characters.
    pub closed spec fn view(&self) -> Seq<char> {
        self.0@
    }

    /// Wraps an identifier.
    pub fn new(id: String) -> (r: UserId)
        ensures
            r.view() == id@,
    {
        UserId(id)
    }

    /// The identifier as a string slice.
    pub fn as_str(&self) -> (r: &str)
        ensures
            r@ == self.view(),
    {
        self.0.as_str()
    }
}

/// A cell-like wrapper around one value.
pub struct Wrapper<T> {
    value: T,
}

impl<T> Wrapper<T> {
    /// The value held.
    pub closed spec fn view(&self) -> T {
        self.value
    }

    /// Wraps a value.
    pub fn new(value: T) -> (r: Wrapper<T>)
        ensures
            r.view() == value,
    {
        Wrapper { value }
    }

    /// Applies a reader to the held value and returns what it produces.
    pub fn read<F, R>(&self, f: F) -> (r: R) where F: FnOnce(&T) -> R
        requires
            call_requires(f, (&self.view(),)),
        ensures
            call_ensures(f, (&self.view(),), r),
    {
        f(&self.value)
    }

    /// Stores a new value and hands back the previous one.
    pub fn write(&mut self, value: T) -> (prev: T)
        ensures
            final(self).view() == value,
            prev == old(self).view(),
    {
        let mut v = value;
        core::mem::swap(&mut self.value, &mut v);
        v
    }
}

/// A typed identifier: a plain number made distinct per key type.
pub struct TypedId<T> {
    id: u64,
    _marker: core::marker::PhantomData<T>,
}

impl<T> TypedId<T> {
    /// The underlying number.
    pub closed spec fn id_spec(&self) -> u64 {
        self.id
    }

    /// Wraps a number.
    pub fn new(id: u64) -> (r: TypedId<T>)
        ensures
            r.id_spec() == id,
    {
        TypedId { id, _marker: core::marker::PhantomData }
    }

    /// The underlying number.
    pub fn value(&self) -> (r: u64)
        ensures
            r == self.id_spec(),
    {
        self.id
    }
}

/// A value handed out only on the second polling step: the first step
/// arms it and reports nothing; a later step takes the value out.
pub struct DelayedValue<T> {
    value: Option<T>,
    delay_ms: u64,
    started: bool,
}

impl<T> DelayedValue<T> {
    /// The value still held.
    pub closed spec fn value_spec(&self) -> Option<T> {
        self.value
    }

    /// The configured delay in milliseconds.
    pub closed spec fn delay_spec(&self) -> u64 {
        self.delay_ms
    }

    /// Whether a polling step has happened.
    pub closed spec fn started_spec(&self) -> bool {
        self.started
    }

    /// A not-yet-started deferred value.
    pub fn new(value: T, delay_ms: u64) -> (r: DelayedValue<T>)
        ensures
            r.value_spec() == Some(value),
            r.delay_spec() == delay_ms,
            !r.started_spec(),
    {
        DelayedValue { value: Some(value), delay_ms, started: false }
    }

    /// One polling step: the first step arms the value and yields
    /// nothing; any later step takes and yields whatever is still held.
    pub fn poll_step(&mut self) -> (r: Option<T>)
        ensures
            final(self).delay_spec() == old(self).delay_spec(),
            final(self).started_spec(),
            !old(self).started_spec() ==> r is None && final(self).value_spec() == old(
                self,
            ).value_spec(),
            old(self).started_spec() ==> r == old(self).value_spec() && final(self).value_spec()
                is None,
    {
        if !self.started {
            self.started = true;
            None
        } else {
            let mut taken: Option<T> = None;
            core::mem::swap(&mut self.value, &mut taken);
            taken
        }
    }
}

/// Applies `f` to every item in order; the result has one output per
/// input, each a possible result of `f` on the corresponding input.
pub fn process_items<T, F, R>(items: Vec<T>, f: F) -> (r: Vec<R>) where F: Fn(T) -> R
    requires
        forall|i: int| 0 <= i < items@.len() ==> call_requires(f, (items@[i],)),
    ensures
        r@.len() == items@.len(),
        forall|i: int| 0 <= i < items@.len() ==> call_ensures(f, (items@[i],), #[trigger] r@[i]),
{
    let ghost orig = items@;
    let mut items = items;
    let mut out: Vec<R> = Vec::new();
    proof {
        assert(items@ =~= orig.skip(0));
    }
    while items.len() > 0
        invariant
            out@.len() + items@.len() == orig.len(),
            items@ == orig.skip(out@.len() as int),
            forall|i: int| 0 <= i < orig.len() ==> call_requires(f, (orig[i],)),
            forall|i: int| 0 <= i < out@.len() ==> call_ensures(f, (orig[i],), #[trigger] out@[i]),
        decreases items@.len(),
    {
        let ghost k = out@.len() as int;
        let x = items.remove(0);
        proof {
            assert(x == orig[k]);
            assert(items@ =~= orig.skip(k + 1));
        }
        let y = f(x);
        out.push(y);
    }
    out
}

/// How an output vector arises from a source by filtering and
/// transforming: `keep` lists, in increasing order, exactly the source
/// indices the filter accepted, and each output is a possible result of
/// the transform on the corresponding kept item.
pub open spec fn selection_of<T, F, G, R>(
    src: Seq<T>,
    keep: Seq<int>,
    out: Seq<R>,
    filter: F,
    transform: G,
) -> bool where F: Fn(&T) -> bool, G: Fn(T) -> R {
    &&& keep.len() == out.len()
    &&& forall|j: int, k: int| 0 <= j < k < keep.len() ==> keep[j] < keep[k]
    &&& forall|j: int| 0 <= j < keep.len() ==> 0 <= #[trigger] keep[j] < src.len()
    &&& forall|j: int| 0 <= j < keep.len() ==> call_ensures(filter, (&src[#[trigger] keep[j]],), true)
    &&& forall|j: int| 0 <= j < out.len() ==> call_ensures(transform, (src[keep[j]],), #[trigger] out[j])
    &&& forall|i: int|
        0 <= i < src.len() && !keep.contains(i) ==> call_ensures(filter, (&src[i],), false)
}

/// Keeps the items the filter accepts, in order, and transforms each.
pub fn filter_and_transform<T, F, G, R>(items: Vec<T>, filter: F, transform: G) -> (r: Vec<
    R,
>) where F: Fn(&T) -> bool, G: Fn(T) -> R
    requires
        forall|i: int| 0 <= i < items@.len() ==> call_requires(filter, (&items@[i],)),
        forall|i: int| 0 <= i < items@.len() ==> call_requires(transform, (items@[i],)),
    ensures
        exists|keep: Seq<int>| selection_of(items@, keep, r@, filter, transform),
{
    let ghost orig = items@;
    let mut items = items;
    let mut out: Vec<R> = Vec::new();
    let ghost mut keep: Seq<int> = Seq::empty();
    let ghost mut done: int = 0;
    proof {
        assert(items@ =~= orig.skip(0));
    }
    while items.len() > 0
        invariant
            0 <= done <= orig.len(),
            done + items@.len() == orig.len(),
            items@ == orig.skip(done),
            keep.len() == out@.len(),
            forall|i: int| 0 <= i < orig.len() ==> call_requires(filter, (&orig[i],)),
            forall|i: int| 0 <= i < orig.len() ==> call_requires(transform, (orig[i],)),
            forall|j: int, k: int| 0 <= j < k < keep.len() ==> keep[j] < keep[k],
            forall|j: int| 0 <= j < keep.len() ==> 0 <= #[trigger] keep[j] < done,
            forall|j: int|
                0 <= j < keep.len() ==> call_ensures(filter, (&orig[#[trigger] keep[j]],), true),
            forall|j: int|
                0 <= j < out@.len() ==> call_ensures(transform, (orig[keep[j]],), #[trigger] out@[j]),
            forall|i: int|
                0 <= i < done && !keep.contains(i) ==> call_ensures(filter, (&orig[i],), false),
        decreases items@.len(),
    {
        let x = items.remove(0);
        proof {
            assert(x == orig[done]);
            assert(items@ =~= orig.skip(done + 1));
        }
        let pass = filter(&x);
        if pass {
            let y = transform(x);
            out.push(y);
            proof {
                let keep0 = keep;
                keep = keep0.push(done);
                assert(keep[keep.len() - 1] == done);
                assert(keep.contains(done));
                assert forall|i: int|
                    0 <= i < done + 1 && !keep.contains(i) implies call_ensures(
                    filter,
                    (&orig[i],),
                    false,
                ) by {
                    assert(i != done);
                    if keep0.contains(i) {
                        let j = choose|j: int| 0 <= j < keep0.len() && keep0[j] == i;
                        assert(keep[j] == i);
                        assert(false);
                    }
                }
            }
        } else {
            proof {
                assert(call_ensures(filter, (&orig[done],), false));
            }
        }
        proof {
            done = done + 1;
        }
    }
    proof {
        assert(done == orig.len());
        assert(selection_of(orig, keep, out@, filter, transform));
    }
    out
}

/// The rendered outcome of a possibly absent, possibly failed count.
pub open spec fn match_text(value: Option<Result<i32, AppError>>) -> Seq<char> {
    match value {
        Some(Ok(n)) => if n > 0 {
            "Positive: "@ + dec_str(n as nat)
        } else if n == 0 {
            "Zero"@
        } else {
            "Negative: "@ + int_str(n as int)
        },
        Some(Err(e)) => "Error: "@ + error_text(e),
        None => "None"@,
    }
}

/// Renders an optional fallible count: its sign, or its error's message.
pub fn match_example(value: Option<Result<i32, AppError>>) -> (r: String)
    ensures
        r@ == match_text(value),
{
    let mut out = String::new();
    match value {
        Some(Ok(n)) => {
            if n > 0 {
                push_str(&mut out, "Positive: ");
                let digits = u64_dec(n as u64);
                push_str(&mut out, digits.as_str());
            } else if n == 0 {
                push_str(&mut out, "Zero");
            } else {
                push_str(&mut out, "Negative: ");
                let digits = i64_dec(n as i64);
                push_str(&mut out, digits.as_str());
            }
            proof {
                assert(out@ =~= match_text(value));
            }
        },
        Some(Err(e)) => {
            push_str(&mut out, "Error: ");
            let msg = e.message();
            push_str(&mut out, msg.as_str());
            proof {
                assert(out@ =~= match_text(value));
            }
        },
        None => {
            push_str(&mut out, "None");
            proof {
                assert(out@ =~= match_text(value));
            }
        },
    }
    out
}

/// The reply text for a data request: the fixed prefix and the location
/// asked for.
pub fn data_message(url: &str) -> (r: String)
    ensures
        r@ == "Data from "@ + url@,
{
    let mut out = String::new();
    push_str(&mut out, "Data from ");
    push_str(&mut out, url);
    proof {
        assert(out@ =~= "Data from "@ + url@);
    }
    out
}

} // verus!
