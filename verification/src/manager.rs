use crate::arena::Allocator;
use crate::collection::{
    find_key_at, probe, probe_start, spec_lookup, Array, HashMap,
};
use crate::err::Error;
use crate::http::{Content, Version};
use crate::request::{byte_sum, spec_request, HttpMethod, RequestHeader};
use crate::response::{spec_response, HttpResponse, HttpStatus};
use vstd::prelude::*;

verus! {

broadcast use vstd::layout::layout_of_primitives;

/// One in-flight connection task. The surrounding program assigns each
/// accepted socket a token and keeps the socket itself; the scheduler only
/// routes the token.
#[derive(Debug, Clone, Copy, PartialEq, Eq, Structural)]
pub struct RequestHandler {
    token: usize,
}

/// What one non-blocking read of a task's socket produced: a chunk of bytes,
/// no data yet, or a socket failure.
pub enum ReadEvent {
    Data(Vec<u8>),
    WouldBlock,
    Failed,
}

/// The route target a table slot stores: which cached file answers the
/// request.
#[derive(Debug, Clone, Copy, PartialEq, Eq, Structural)]
pub struct Mapping {
    pub file_index: usize,
}

/// What the scheduler asks the surrounding program to do after polling one
/// task.
pub enum Action {
    /// The ready queue was empty; nothing was polled.
    Idle,
    /// The task was not ready and went back to the waiting queue.
    Deferred(usize),
    /// The task failed (socket error, malformed request, or resources
    /// exhausted); close its connection without a response.
    Abandoned(usize),
    /// The task completed; write the response bytes to its socket and close.
    Respond(usize, HttpResponse),
}

/// The shared per-server state: the route table, the cached files, and the
/// scratch arena every poll allocates from.
pub struct Context {
    mappings: HashMap<RequestHeader, Mapping>,
    files: Array<Array<u8>>,
    allocator: Allocator,
}

/// The single-threaded cooperative scheduler: two task queues and the shared
/// context. Each tick swaps *waiting* into the ready *queue* and drains the
/// queue by polling one task at a time.
pub struct Manager {
    waiting: Array<RequestHandler>,
    queue: Array<RequestHandler>,
    context: Context,
}

/// The bytes the context charges its 16384-byte child arena for its own
/// tables when built over pages of the given lengths.
pub open spec fn context_charge(hello_len: int, error_len: int) -> int {
    20 * vstd::layout::size_of::<Array<u8>>() + 20 * vstd::layout::size_of::<RequestHeader>()
        + 20 * vstd::layout::size_of::<Option<Mapping>>() + hello_len + error_len
}

/// Whether the context's own tables fit its child arena.
pub open spec fn context_fits(hello_len: int, error_len: int) -> bool {
    &&& 20 * vstd::layout::size_of::<Array<u8>>() <= usize::MAX
    &&& 20 * vstd::layout::size_of::<RequestHeader>() <= usize::MAX
    &&& 20 * vstd::layout::size_of::<Option<Mapping>>() <= usize::MAX
    &&& context_charge(hello_len, error_len) <= 16384
}

/// The route a request with the given method and path reaches, probing the
/// table exactly as a lookup of a parsed request header (whose version
/// number is always `1`) does.
pub open spec fn route_find_at(
    slots: Seq<RequestHeader>,
    m: HttpMethod,
    ep: Seq<u8>,
    pos: int,
    i: int,
) -> Option<int>
    decreases slots.len() - i,
{
    if i < 0 || i >= slots.len() {
        None
    } else {
        let idx = probe(slots.len() as int, pos, i);
        if crate::collection::Hash::is_zero_spec(&slots[idx]) {
            None
        } else if slots[idx].spec_method() == m && slots[idx].spec_endpoint() == ep {
            Some(idx)
        } else {
            route_find_at(slots, m, ep, pos, i + 1)
        }
    }
}

/// Where the probe for a parsed request with path `ep` starts.
pub open spec fn route_pos(slots: Seq<RequestHeader>, ep: Seq<u8>) -> int {
    ((byte_sum(ep) | (((1u32 << 30u32) as usize))) as int) % (slots.len() as int)
}

/// The handler a request with the given method and path dispatches to.
pub open spec fn spec_route(
    slots: Seq<RequestHeader>,
    vals: Seq<Option<Mapping>>,
    m: HttpMethod,
    ep: Seq<u8>,
) -> Option<Mapping> {
    match route_find_at(slots, m, ep, route_pos(slots, ep), 0) {
        Some(idx) => vals[idx],
        None => None,
    }
}

/// A lookup of a parsed header (version number `1`) probes exactly as
/// [`route_find_at`] over its method and path does.
proof fn lemma_route_agrees(slots: Seq<RequestHeader>, h: RequestHeader, pos: int, i: int)
    requires
        h.spec_version_num() == 1,
        0 <= i,
    ensures
        find_key_at(slots, h, pos, i) == route_find_at(
            slots,
            h.spec_method(),
            h.spec_endpoint(),
            pos,
            i,
        ),
    decreases slots.len() - i,
{
    if i < slots.len() {
        lemma_route_agrees(slots, h, pos, i + 1);
    }
}

/// One poll step of the drain loop: the last ready task is popped; a
/// deferred task moves to the waiting queue, a finished one leaves the
/// system.
pub open spec fn drain_step(
    w: Seq<RequestHandler>,
    q: Seq<RequestHandler>,
    defer: bool,
) -> (Seq<RequestHandler>, Seq<RequestHandler>) {
    if q.len() == 0 {
        (w, q)
    } else if defer {
        (w.push(q.last()), q.drop_last())
    } else {
        (w, q.drop_last())
    }
}

/// The drain loop run to completion over one poll outcome per ready task.
pub open spec fn drain_run(
    w: Seq<RequestHandler>,
    q: Seq<RequestHandler>,
    defers: Seq<bool>,
) -> (Seq<RequestHandler>, Seq<RequestHandler>)
    decreases defers.len(),
{
    if defers.len() == 0 {
        (w, q)
    } else {
        let stepped = drain_step(w, q, defers[0]);
        drain_run(stepped.0, stepped.1, defers.subrange(1, defers.len() as int))
    }
}

/// Scheduler draining: when every one of the N ready tasks completes on its
/// poll, one tick's drain processes all N and leaves both queues empty.
pub proof fn lemma_tick_drains(
    w: Seq<RequestHandler>,
    q: Seq<RequestHandler>,
    defers: Seq<bool>,
)
    requires
        w.len() == 0,
        defers.len() == q.len(),
        forall|i: int| 0 <= i < defers.len() ==> !defers[i],
    ensures
        drain_run(w, q, defers).0 == Seq::<RequestHandler>::empty(),
        drain_run(w, q, defers).1 == Seq::<RequestHandler>::empty(),
    decreases q.len(),
{
    if q.len() == 0 {
        assert(w =~= Seq::<RequestHandler>::empty());
        assert(q =~= Seq::<RequestHandler>::empty());
    } else {
        lemma_tick_drains(w, q.drop_last(), defers.subrange(1, defers.len() as int));
    }
}

/// One whole tick for tasks that all sit in the waiting queue between
/// ticks: the swap makes them the ready queue, then the queue drains with
/// one poll outcome per task; what remains waits for the next tick.
pub open spec fn spec_tick(w: Seq<RequestHandler>, defers: Seq<bool>) -> Seq<RequestHandler> {
    drain_run(Seq::empty(), w, defers).0
}

/// The waiting queue after `j` ticks in which a lone task is polled once
/// per tick and reports "not ready" every time.
pub open spec fn defer_ticks(t: RequestHandler, j: nat) -> Seq<RequestHandler>
    decreases j,
{
    if j == 0 {
        seq![t]
    } else {
        spec_tick(defer_ticks(t, (j - 1) as nat), seq![true])
    }
}

/// A deferred task stays in the system: after any number of "not ready"
/// ticks the lone task still waits.
pub proof fn lemma_task_deferred_stays(t: RequestHandler, j: nat)
    ensures
        defer_ticks(t, j) == seq![t],
    decreases j,
{
    if j > 0 {
        lemma_task_deferred_stays(t, (j - 1) as nat);
        let w0 = Seq::<RequestHandler>::empty();
        assert(seq![true].subrange(1, 1) =~= Seq::<bool>::empty());
        assert(seq![t].drop_last() =~= w0);
        assert(seq![t].last() == t);
        assert(drain_step(w0, seq![t], true).0 =~= w0.push(t));
        assert(drain_step(w0, seq![t], true).1 =~= w0);
        assert(drain_run(w0.push(t), w0, Seq::<bool>::empty()).0 =~= w0.push(t));
        assert(drain_run(w0, seq![t], seq![true]).0 =~= w0.push(t));
        assert(w0.push(t) =~= seq![t]);
    }
}

/// Scheduler deferral: a task that is not ready on its first `k` polls is
/// present in the system for all of those ticks, and the tick whose poll
/// completes it removes it from both queues for good.
pub proof fn lemma_task_completes_then_gone(t: RequestHandler, k: nat)
    ensures
        forall|j: nat| j <= k ==> defer_ticks(t, j) == seq![t],
        spec_tick(defer_ticks(t, k), seq![false]) == Seq::<RequestHandler>::empty(),
{
    assert forall|j: nat| j <= k implies defer_ticks(t, j) == seq![t] by {
        lemma_task_deferred_stays(t, j);
    }
    lemma_task_deferred_stays(t, k);
    let w0 = Seq::<RequestHandler>::empty();
    assert(seq![false].subrange(1, 1) =~= Seq::<bool>::empty());
    assert(seq![t].drop_last() =~= w0);
    assert(drain_step(w0, seq![t], false).0 =~= w0);
    assert(drain_step(w0, seq![t], false).1 =~= w0);
    assert(drain_run(w0, w0, Seq::<bool>::empty()).0 =~= w0);
    assert(drain_run(w0, seq![t], seq![false]).0 =~= w0);
}

impl RequestHandler {
    /// The token of the connection's socket.
    pub closed spec fn spec_token(&self) -> usize {
        self.token
    }

    /// Wraps an accepted connection's token as a task.
    pub fn new(token: usize) -> (r: RequestHandler)
        ensures
            r.spec_token() == token,
    {
        RequestHandler { token }
    }

    /// The socket token.
    pub fn token(&self) -> (r: usize)
        ensures
            r == self.spec_token(),
    {
        self.token
    }
}

impl Context {
    /// The keys of the route table's slots.
    pub closed spec fn spec_slots(&self) -> Seq<RequestHeader> {
        self.mappings.slots()
    }

    /// The handlers of the route table's slots.
    pub closed spec fn spec_vals(&self) -> Seq<Option<Mapping>> {
        self.mappings.vals()
    }

    /// How many files are cached.
    pub closed spec fn spec_num_files(&self) -> int {
        self.files@.len() as int
    }

    /// The bytes of the cached file at `i`.
    pub closed spec fn spec_file(&self, i: int) -> Seq<u8> {
        self.files@[i]@
    }

    /// Free bytes of the context's child arena.
    pub closed spec fn spec_free(&self) -> int {
        self.allocator.spec_free()
    }

    /// The context is consistent: a working child arena, a working route
    /// table, at least the two standard pages cached, and every registered
    /// handler pointing at a cached file.
    pub closed spec fn wf(&self) -> bool {
        &&& self.allocator.wf()
        &&& self.mappings.wf()
        &&& self.files.wf()
        &&& self.files@.len() >= 2
        &&& forall|i: int|
            0 <= i < self.mappings.vals().len() && ((#[trigger] self.mappings.vals()[i]) matches
            Some(mp) && mp.file_index >= self.files@.len()) ==> false
    }

    /// Carves a 16384-byte child arena from the parent and builds the shared
    /// state in it: an empty route table of 20 slots and the two standard
    /// pages, copied into the child arena. Fails with `Error::Allocation`
    /// exactly when the child does not fit the parent or the tables and
    /// pages do not fit the child; a failure after the carve leaves the
    /// parent's carve in place.
    pub fn new(parent_allocator: &mut Allocator, hello_page: &[u8], error_page: &[u8]) -> (r:
        Result<Context, Error>)
        requires
            old(parent_allocator).wf(),
        ensures
            final(parent_allocator).wf(),
            final(parent_allocator).spec_base() == old(parent_allocator).spec_base(),
            final(parent_allocator).spec_cap() == old(parent_allocator).spec_cap(),
            16384 > old(parent_allocator).spec_free() ==> r == Err::<Context, Error>(
                Error::Allocation,
            ) && final(parent_allocator).spec_end() == old(parent_allocator).spec_end(),
            16384 <= old(parent_allocator).spec_free() ==> final(parent_allocator).spec_end()
                == old(parent_allocator).spec_end() + 16384 && (context_fits(
                hello_page@.len() as int,
                error_page@.len() as int,
            ) ==> r is Ok && r.unwrap().wf() && r.unwrap().spec_num_files() == 2
                && r.unwrap().spec_file(0) == hello_page@ && r.unwrap().spec_file(1)
                == error_page@ && r.unwrap().spec_slots().len() == 20 && (forall|i: int|
                0 <= i < 20 ==> crate::collection::Hash::is_zero_spec(&(#[trigger] r.unwrap().spec_slots()[i]))) && (
            forall|i: int| 0 <= i < 20 ==> r.unwrap().spec_vals()[i] is None)
                && r.unwrap().spec_free() == 16384 - context_charge(
                hello_page@.len() as int,
                error_page@.len() as int,
            )) && (!context_fits(hello_page@.len() as int, error_page@.len() as int) ==> r
                == Err::<Context, Error>(Error::Allocation)),
    {
        let mut child = parent_allocator.child(16384)?;
        let mut files: Array<Array<u8>> = Array::new(20, &mut child)?;
        let mappings: HashMap<RequestHeader, Mapping> = HashMap::new(20, &mut child)?;
        let mut hello: Array<u8> = Array::new(hello_page.len(), &mut child)?;
        let _ = hello.copy(hello_page);
        let _ = files.push(hello);
        let mut error_file: Array<u8> = Array::new(error_page.len(), &mut child)?;
        let _ = error_file.copy(error_page);
        let _ = files.push(error_file);
        Ok(Context { mappings, files, allocator: child })
    }

    /// Adds one route: probes for the first empty slot from the key's hash
    /// and writes the pair there, exactly as [`HashMap::insert`] promises.
    /// Fails with `Error::OutOfBounds`, changing nothing, when the probe
    /// finds no empty slot before its wrap-detection step.
    pub fn register(&mut self, header: RequestHeader, mapping: Mapping) -> (r: Result<(), Error>)
        requires
            old(self).wf(),
            mapping.file_index < old(self).spec_num_files(),
        ensures
            final(self).wf(),
            final(self).spec_num_files() == old(self).spec_num_files(),
            forall|i: int|
                0 <= i < old(self).spec_num_files() ==> final(self).spec_file(i) == old(self).spec_file(i),
            final(self).spec_free() == old(self).spec_free(),
            ({
                let cap = old(self).spec_slots().len() as int;
                let pos = probe_start(old(self).spec_slots(), header);
                match crate::collection::first_empty(old(self).spec_slots(), pos) {
                    None => r == Err::<(), Error>(Error::OutOfBounds) && final(self).spec_slots()
                        == old(self).spec_slots() && final(self).spec_vals() == old(self).spec_vals(),
                    Some(i) => {
                        if i == cap - 1 {
                            r == Err::<(), Error>(Error::OutOfBounds) && final(self).spec_slots()
                                == old(self).spec_slots() && final(self).spec_vals() == old(self).spec_vals()
                        } else {
                            r == Ok::<(), Error>(()) && final(self).spec_slots() == old(self).spec_slots().update(probe(cap, pos, i), header) && final(self).spec_vals() == old(self).spec_vals().update(
                                probe(cap, pos, i),
                                Some(mapping),
                            )
                        }
                    },
                }
            }),
    {
        let r = self.mappings.insert(header, mapping);
        proof {
            assert forall|i: int|
                0 <= i < self.mappings.vals().len() && ((#[trigger] self.mappings.vals()[i]) matches
                Some(mp) && mp.file_index >= self.files@.len()) implies false by {
                let prev = old(self).mappings.vals()[i];
            }
        }
        r
    }

    /// Looks the request's signature up in the route table, exactly as
    /// [`HashMap::get`] promises: the registered handler on a hit, nothing
    /// on a miss.
    pub fn dispatch(&mut self, header: &RequestHeader) -> (r: Option<Mapping>)
        requires
            old(self).wf(),
        ensures
            *final(self) == *old(self),
            old(self).spec_vals().len() == old(self).spec_slots().len(),
            r == spec_lookup(old(self).spec_slots(), old(self).spec_vals(), *header),
    {
        self.mappings.get(header)
    }
}

/// Formats the cached file at `file_index` as an HTML response with the
/// given status, carving the response array from the context's arena.
fn respond(context: &mut Context, file_index: usize, status: HttpStatus) -> (r: Result<
    HttpResponse,
    Error,
>)
    requires
        old(context).wf(),
        file_index < old(context).spec_num_files(),
    ensures
        final(context).wf(),
        final(context).spec_slots() == old(context).spec_slots(),
        final(context).spec_vals() == old(context).spec_vals(),
        final(context).spec_num_files() == old(context).spec_num_files(),
        forall|i: int|
            0 <= i < old(context).spec_num_files() ==> final(context).spec_file(i) == old(context).spec_file(i),
        1024 > old(context).spec_free() ==> r == Err::<HttpResponse, Error>(Error::Allocation)
            && final(context).spec_free() == old(context).spec_free(),
        1024 <= old(context).spec_free() ==> final(context).spec_free() == old(context).spec_free() - 1024 && ({
            let page = old(context).spec_file(file_index as int);
            if spec_response(status, page).len() <= 1024 {
                r is Ok && r.unwrap().spec_body() == spec_response(status, page)
                    && r.unwrap().spec_status() == status
            } else {
                r == Err::<HttpResponse, Error>(Error::OutOfBounds)
            }
        }),
{
    let page = context.files.index(file_index);
    HttpResponse::new(Version::OneOne, status, Content::Html(page.slice()), &mut context.allocator)
}

/// The handler of `/`: the first cached page with a success status.
pub fn root(context: &mut Context) -> (r: Result<HttpResponse, Error>)
    requires
        old(context).wf(),
    ensures
        final(context).wf(),
        final(context).spec_slots() == old(context).spec_slots(),
        final(context).spec_vals() == old(context).spec_vals(),
        final(context).spec_num_files() == old(context).spec_num_files(),
        forall|i: int|
            0 <= i < old(context).spec_num_files() ==> final(context).spec_file(i) == old(context).spec_file(i),
        1024 > old(context).spec_free() ==> r == Err::<HttpResponse, Error>(Error::Allocation)
            && final(context).spec_free() == old(context).spec_free(),
        1024 <= old(context).spec_free() ==> final(context).spec_free() == old(context).spec_free() - 1024 && ({
            let page = old(context).spec_file(0);
            if spec_response(HttpStatus::Success, page).len() <= 1024 {
                r is Ok && r.unwrap().spec_body() == spec_response(HttpStatus::Success, page)
            } else {
                r == Err::<HttpResponse, Error>(Error::OutOfBounds)
            }
        }),
{
    respond(context, 0, HttpStatus::Success)
}

/// The handler of `/hello`: the first cached page with a success status.
pub fn hello(context: &mut Context) -> (r: Result<HttpResponse, Error>)
    requires
        old(context).wf(),
    ensures
        final(context).wf(),
        final(context).spec_slots() == old(context).spec_slots(),
        final(context).spec_vals() == old(context).spec_vals(),
        final(context).spec_num_files() == old(context).spec_num_files(),
        forall|i: int|
            0 <= i < old(context).spec_num_files() ==> final(context).spec_file(i) == old(context).spec_file(i),
        1024 > old(context).spec_free() ==> r == Err::<HttpResponse, Error>(Error::Allocation)
            && final(context).spec_free() == old(context).spec_free(),
        1024 <= old(context).spec_free() ==> final(context).spec_free() == old(context).spec_free() - 1024 && ({
            let page = old(context).spec_file(0);
            if spec_response(HttpStatus::Success, page).len() <= 1024 {
                r is Ok && r.unwrap().spec_body() == spec_response(HttpStatus::Success, page)
            } else {
                r == Err::<HttpResponse, Error>(Error::OutOfBounds)
            }
        }),
{
    respond(context, 0, HttpStatus::Success)
}

/// The fallback handler for unrouted requests: the second cached page with
/// an error status.
pub fn error(context: &mut Context) -> (r: Result<HttpResponse, Error>)
    requires
        old(context).wf(),
    ensures
        final(context).wf(),
        final(context).spec_slots() == old(context).spec_slots(),
        final(context).spec_vals() == old(context).spec_vals(),
        final(context).spec_num_files() == old(context).spec_num_files(),
        forall|i: int|
            0 <= i < old(context).spec_num_files() ==> final(context).spec_file(i) == old(context).spec_file(i),
        1024 > old(context).spec_free() ==> r == Err::<HttpResponse, Error>(Error::Allocation)
            && final(context).spec_free() == old(context).spec_free(),
        1024 <= old(context).spec_free() ==> final(context).spec_free() == old(context).spec_free() - 1024 && ({
            let page = old(context).spec_file(1);
            if spec_response(HttpStatus::Error, page).len() <= 1024 {
                r is Ok && r.unwrap().spec_body() == spec_response(HttpStatus::Error, page)
            } else {
                r == Err::<HttpResponse, Error>(Error::OutOfBounds)
            }
        }),
{
    respond(context, 1, HttpStatus::Error)
}

impl Manager {
    /// The tasks waiting for the next tick.
    pub closed spec fn spec_waiting(&self) -> Seq<RequestHandler> {
        self.waiting@
    }

    /// The tasks of the ready queue being drained.
    pub closed spec fn spec_queue(&self) -> Seq<RequestHandler> {
        self.queue@
    }

    /// The shared context.
    pub closed spec fn spec_ctx(&self) -> Context {
        self.context
    }

    /// Queues of one common capacity, together never over it, around a
    /// consistent context.
    pub closed spec fn wf(&self) -> bool {
        &&& self.waiting.wf()
        &&& self.queue.wf()
        &&& self.waiting.spec_cap() == self.queue.spec_cap()
        &&& self.waiting@.len() + self.queue@.len() <= self.waiting.spec_cap()
        &&& self.context.wf()
    }

    /// Builds a scheduler: the shared context in a child arena, and two
    /// task queues of 20 slots carved from the parent. Fails with
    /// `Error::Allocation` exactly when a carve does not fit; every carve
    /// made before a failure stays in place.
    pub fn new(allocator: &mut Allocator, hello_page: &[u8], error_page: &[u8]) -> (r: Result<
        Manager,
        Error,
    >)
        requires
            old(allocator).wf(),
        ensures
            final(allocator).wf(),
            final(allocator).spec_base() == old(allocator).spec_base(),
            final(allocator).spec_cap() == old(allocator).spec_cap(),
            ({
                let free = old(allocator).spec_free();
                let cq = 20 * vstd::layout::size_of::<RequestHandler>();
                let fits_ctx = context_fits(hello_page@.len() as int, error_page@.len() as int);
                &&& 16384 > free ==> r == Err::<Manager, Error>(Error::Allocation) && final(allocator).spec_end() == old(allocator).spec_end()
                &&& (16384 <= free && !fits_ctx) ==> r == Err::<Manager, Error>(Error::Allocation)
                    && final(allocator).spec_end() == old(allocator).spec_end() + 16384
                &&& (16384 <= free && fits_ctx && (cq > usize::MAX || 16384 + cq > free)) ==> r
                    == Err::<Manager, Error>(Error::Allocation) && final(allocator).spec_end()
                    == old(allocator).spec_end() + 16384
                &&& (16384 <= free && fits_ctx && cq <= usize::MAX && 16384 + cq <= free && 16384
                    + 2 * cq > free) ==> r == Err::<Manager, Error>(Error::Allocation) && final(allocator).spec_end() == old(allocator).spec_end() + 16384 + cq
                &&& (fits_ctx && cq <= usize::MAX && 16384 + 2 * cq <= free) ==> r is Ok && final(allocator).spec_end() == old(allocator).spec_end() + 16384 + 2 * cq && ({
                    let m = r.unwrap();
                    &&& m.wf()
                    &&& m.spec_waiting().len() == 0
                    &&& m.spec_queue().len() == 0
                    &&& m.spec_ctx().spec_num_files() == 2
                    &&& m.spec_ctx().spec_file(0) == hello_page@
                    &&& m.spec_ctx().spec_file(1) == error_page@
                    &&& m.spec_ctx().spec_slots().len() == 20
                    &&& forall|i: int|
                        0 <= i < 20 ==> crate::collection::Hash::is_zero_spec(&(#[trigger] m.spec_ctx().spec_slots()[i]))
                    &&& forall|i: int| 0 <= i < 20 ==> m.spec_ctx().spec_vals()[i] is None
                    &&& m.spec_ctx().spec_free() == 16384 - context_charge(
                        hello_page@.len() as int,
                        error_page@.len() as int,
                    )
                })
            }),
    {
        let context = Context::new(allocator, hello_page, error_page)?;
        let waiting: Array<RequestHandler> = Array::new(20, allocator)?;
        let queue: Array<RequestHandler> = Array::new(20, allocator)?;
        Ok(Manager { waiting, queue, context })
    }

    /// Swaps the waiting and ready queues: the tasks deferred during the
    /// previous tick become this tick's work.
    pub fn swap(&mut self)
        requires
            old(self).wf(),
        ensures
            final(self).wf(),
            final(self).spec_waiting() == old(self).spec_queue(),
            final(self).spec_queue() == old(self).spec_waiting(),
            final(self).spec_ctx() == old(self).spec_ctx(),
    {
        core::mem::swap(&mut self.waiting, &mut self.queue);
    }

    /// Whether any task waits for the next tick.
    pub fn has_waiting(&self) -> (r: bool)
        ensures
            r == (self.spec_waiting().len() > 0),
    {
        self.waiting.len() > 0
    }

    /// The token of the task the next poll would take, if any.
    pub fn current_token(&self) -> (r: Option<usize>)
        ensures
            self.spec_queue().len() == 0 ==> r is None,
            self.spec_queue().len() > 0 ==> r == Some(self.spec_queue().last().spec_token()),
    {
        if self.queue.len() == 0 {
            None
        } else {
            Some(self.queue.index(self.queue.len() - 1).token())
        }
    }

    /// Admits one accepted connection into the waiting queue. Fails with
    /// `Error::OutOfBounds`, changing nothing, exactly when the two queues
    /// together already hold their capacity: the caller then applies
    /// backpressure and stops accepting until a slot frees.
    pub fn append(&mut self, fut: RequestHandler) -> (r: Result<(), Error>)
        requires
            old(self).wf(),
        ensures
            final(self).wf(),
            final(self).spec_queue() == old(self).spec_queue(),
            final(self).spec_ctx() == old(self).spec_ctx(),
            old(self).spec_waiting().len() + old(self).spec_queue().len()
                >= old(self).spec_queue_cap() ==> r == Err::<(), Error>(Error::OutOfBounds)
                && final(self).spec_waiting() == old(self).spec_waiting(),
            old(self).spec_waiting().len() + old(self).spec_queue().len()
                < old(self).spec_queue_cap() ==> r == Ok::<(), Error>(()) && final(self).spec_waiting() == old(self).spec_waiting().push(fut),
    {
        if self.waiting.len() >= self.queue.cap() - self.queue.len() {
            Err(Error::OutOfBounds)
        } else {
            let _ = self.waiting.push(fut);
            Ok(())
        }
    }

    /// The common capacity of the two queues.
    pub closed spec fn spec_queue_cap(&self) -> int {
        self.queue.spec_cap()
    }

    /// Adds one route to the shared context's table, exactly as
    /// [`Context::register`] promises; the route table is populated this way
    /// once at startup, before any task is admitted.
    pub fn register(&mut self, header: RequestHeader, mapping: Mapping) -> (r: Result<(), Error>)
        requires
            old(self).wf(),
            mapping.file_index < old(self).spec_ctx().spec_num_files(),
        ensures
            final(self).wf(),
            final(self).spec_waiting() == old(self).spec_waiting(),
            final(self).spec_queue() == old(self).spec_queue(),
            final(self).spec_ctx().spec_num_files() == old(self).spec_ctx().spec_num_files(),
            final(self).spec_ctx().spec_free() == old(self).spec_ctx().spec_free(),
            ({
                let cap = old(self).spec_ctx().spec_slots().len() as int;
                let pos = probe_start(old(self).spec_ctx().spec_slots(), header);
                match crate::collection::first_empty(old(self).spec_ctx().spec_slots(), pos) {
                    None => r == Err::<(), Error>(Error::OutOfBounds)
                        && final(self).spec_ctx().spec_slots() == old(self).spec_ctx().spec_slots()
                        && final(self).spec_ctx().spec_vals() == old(self).spec_ctx().spec_vals(),
                    Some(i) => {
                        if i == cap - 1 {
                            r == Err::<(), Error>(Error::OutOfBounds)
                                && final(self).spec_ctx().spec_slots() == old(
                                self,
                            ).spec_ctx().spec_slots() && final(self).spec_ctx().spec_vals()
                                == old(self).spec_ctx().spec_vals()
                        } else {
                            r == Ok::<(), Error>(()) && final(self).spec_ctx().spec_slots()
                                == old(self).spec_ctx().spec_slots().update(
                                probe(cap, pos, i),
                                header,
                            ) && final(self).spec_ctx().spec_vals() == old(
                                self,
                            ).spec_ctx().spec_vals().update(probe(cap, pos, i), Some(mapping))
                        }
                    },
                }
            }),
    {
        self.context.register(header, mapping)
    }

    /// Polls the last ready task against the read event its socket
    /// produced. The poll first carves a 1024-byte scratch read buffer from
    /// the context arena and reclaims it (LIFO) before returning, on every
    /// path, so a poll that defers or fails leaves the arena exactly as it
    /// found it. A completed read is parsed; a parse failure abandons the
    /// task with no response. A parsed request is dispatched through the
    /// route table: a hit answers with the mapped file and a success
    /// status, a miss with the fallback page and an error status. The
    /// queues evolve by [`drain_step`]: deferred tasks (not ready, or no
    /// room for the scratch buffer) go back to waiting, finished ones leave.
    pub fn next(&mut self, event: ReadEvent) -> (r: Action)
        requires
            old(self).wf(),
        ensures
            final(self).wf(),
            final(self).spec_ctx().spec_slots() == old(self).spec_ctx().spec_slots(),
            final(self).spec_ctx().spec_vals() == old(self).spec_ctx().spec_vals(),
            final(self).spec_ctx().spec_num_files() == old(self).spec_ctx().spec_num_files(),
            forall|i: int|
                0 <= i < old(self).spec_ctx().spec_num_files() ==> final(self).spec_ctx().spec_file(
                    i,
                ) == old(self).spec_ctx().spec_file(i),
            ({
                let deferred = (event matches ReadEvent::WouldBlock) || 1024 > old(self).spec_ctx().spec_free();
                (final(self).spec_waiting(), final(self).spec_queue()) == drain_step(
                    old(self).spec_waiting(),
                    old(self).spec_queue(),
                    deferred,
                )
            }),
            old(self).spec_queue().len() == 0 ==> r is Idle && final(self).spec_ctx().spec_free() == old(self).spec_ctx().spec_free(),
            old(self).spec_queue().len() > 0 ==> ({
                let tok = old(self).spec_queue().last().spec_token();
                let free = old(self).spec_ctx().spec_free();
                &&& 1024 > free ==> r == Action::Deferred(tok)
                    && final(self).spec_ctx().spec_free() == free
                &&& 1024 <= free ==> match event {
                    ReadEvent::WouldBlock => r == Action::Deferred(tok)
                        && final(self).spec_ctx().spec_free() == free,
                    ReadEvent::Failed => r == Action::Abandoned(tok)
                        && final(self).spec_ctx().spec_free() == free,
                    ReadEvent::Data(bytes) => match spec_request(bytes@) {
                        Err(_) => r == Action::Abandoned(tok)
                            && final(self).spec_ctx().spec_free() == free,
                        Ok((m, ep)) => {
                            if ep.len() > free {
                                r == Action::Abandoned(tok) && final(self).spec_ctx().spec_free()
                                    == free
                            } else {
                                let route = spec_route(
                                    old(self).spec_ctx().spec_slots(),
                                    old(self).spec_ctx().spec_vals(),
                                    m,
                                    ep,
                                );
                                let status = if route is Some {
                                    HttpStatus::Success
                                } else {
                                    HttpStatus::Error
                                };
                                let page = if route is Some {
                                    old(self).spec_ctx().spec_file(route.unwrap().file_index as int)
                                } else {
                                    old(self).spec_ctx().spec_file(1)
                                };
                                &&& 1024 > free - ep.len() ==> r == Action::Abandoned(tok)
                                    && final(self).spec_ctx().spec_free() == free - ep.len()
                                &&& 1024 <= free - ep.len() ==> final(self).spec_ctx().spec_free() == free - ep.len() - 1024 && (if
                                spec_response(status, page).len() <= 1024 {
                                    r matches Action::Respond(tok2, resp) && tok2 == tok
                                        && resp.spec_body() == spec_response(status, page)
                                } else {
                                    r == Action::Abandoned(tok)
                                })
                            }
                        },
                    },
                }
            }),
    {
        let t = match self.queue.pop() {
            None => {
                return Action::Idle;
            },
            Some(t) => t,
        };
        let scratch = match self.context.allocator.reserve(1024) {
            Err(_) => {
                let _ = self.waiting.push(t);
                return Action::Deferred(t.token());
            },
            Ok(handle) => handle,
        };
        match event {
            ReadEvent::WouldBlock => {
                self.context.allocator.dealloc(scratch, 1024);
                let _ = self.waiting.push(t);
                Action::Deferred(t.token())
            },
            ReadEvent::Failed => {
                self.context.allocator.dealloc(scratch, 1024);
                Action::Abandoned(t.token())
            },
            ReadEvent::Data(bytes) => {
                self.context.allocator.dealloc(scratch, 1024);
                let header = match RequestHeader::from_bytes(
                    bytes.as_slice(),
                    &mut self.context.allocator,
                ) {
                    Err(_) => {
                        return Action::Abandoned(t.token());
                    },
                    Ok(h) => h,
                };
                let routed = self.context.dispatch(&header);
                proof {
                    lemma_route_agrees(
                        old(self).spec_ctx().spec_slots(),
                        header,
                        probe_start(old(self).spec_ctx().spec_slots(), header),
                        0,
                    );
                    crate::collection::lemma_find_only_occupied::<RequestHeader>(
                        old(self).spec_ctx().spec_slots(),
                        header,
                        probe_start(old(self).spec_ctx().spec_slots(), header),
                        0,
                    );
                    if routed is Some {
                        let found = find_key_at(
                            old(self).spec_ctx().spec_slots(),
                            header,
                            probe_start(old(self).spec_ctx().spec_slots(), header),
                            0,
                        );
                        assert(self.context.mappings.vals()[found.unwrap()] == routed);
                        assert(routed.unwrap().file_index < self.context.files@.len());
                    }
                }
                let result = match routed {
                    Some(mapping) => respond(
                        &mut self.context,
                        mapping.file_index,
                        HttpStatus::Success,
                    ),
                    None => error(&mut self.context),
                };
                match result {
                    Ok(resp) => Action::Respond(t.token(), resp),
                    Err(_) => Action::Abandoned(t.token()),
                }
            },
        }
    }
}

} // verus!
