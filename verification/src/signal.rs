//! Reactive signals: shared values whose writes run the callbacks that subscribed, with
//! batching of notifications and tracking of reads.

use vstd::prelude::*;
use std::sync::{Arc, Mutex, RwLock};

verus! {

/// The per-thread state that signals use, kept by the host: signal ids, the read tracker,
/// the batch queue and the callbacks themselves, which subscriptions name by id.
pub trait SignalHost {
    /// A fresh signal id.
    fn next_signal_id() -> u64;

    /// Records that the signal behind `handle` was read, while reads are tracked.
    fn record_read(handle: ErasedSignalHandle);

    /// Starts tracking reads.
    fn start_tracking();

    /// Stops tracking reads and returns the reads recorded since the start.
    fn stop_tracking() -> Vec<ErasedSignalHandle>;

    /// Whether a batch is open.
    fn batching() -> bool;

    /// Opens a batch.
    fn open_batch();

    /// Queues the callback `callback` in the open batch.
    fn enqueue(callback: u64);

    /// Closes the batch and returns the queued callbacks in order.
    fn close_batch() -> Vec<u64>;

    /// Runs the callback `callback`.
    fn run(callback: u64);

    /// A new subscription names the callback `callback`.
    fn retain(callback: u64);

    /// A subscription that named the callback `callback` has ended: nothing holds it any
    /// more. The host keeps the callback while other subscriptions name it.
    fn release(callback: u64);
}

#[verifier::external_type_specification]
#[verifier::external_body]
#[verifier::reject_recursive_types(T)]
pub struct ExRwLock<T: ?Sized>(RwLock<T>);

#[verifier::external_type_specification]
#[verifier::external_body]
#[verifier::reject_recursive_types(T)]
pub struct ExMutex<T: ?Sized>(Mutex<T>);

/// `RwLock::new`: a lock holding `value`.
#[verifier::external_body]
fn lock_new<T>(value: T) -> RwLock<T> {
    RwLock::new(value)
}

/// Replaces the value behind the lock (`RwLock::write`), taking the value over from a
/// writer that panicked. The lock is held for the store alone (the old value's drop runs
/// under it); no function of this library calls this while holding the lock. Nothing is
/// said of the value: every holder of the signal shares it.
#[verifier::external_body]
fn lock_store<T>(lock: &RwLock<T>, value: T) {
    let mut guard = match lock.write() {
        Ok(guard) => guard,
        Err(poisoned) => poisoned.into_inner(),
    };
    *guard = value;
}

/// A clone of the value behind the lock (`RwLock::read`). The lock is held for the clone
/// alone; no function of this library calls this while holding the lock. Nothing is said
/// of the value: it is the last value that any holder stored.
#[verifier::external_body]
fn lock_load<T: Clone>(lock: &RwLock<T>) -> T {
    let guard = match lock.read() {
        Ok(guard) => guard,
        Err(poisoned) => poisoned.into_inner(),
    };
    guard.clone()
}

/// `Mutex::new`: a lock holding an empty list of subscriptions.
#[verifier::external_body]
fn list_new() -> Mutex<Vec<Arc<CallbackToken>>> {
    Mutex::new(Vec::new())
}

/// Appends `token` to the list behind the lock (`Mutex::lock`, then `Vec::push`), taking
/// the list over from a holder that panicked. The lock is held for the push alone. Nothing
/// is said of the list, which every holder of the signal shares.
#[verifier::external_body]
fn list_push(list: &Mutex<Vec<Arc<CallbackToken>>>, token: Arc<CallbackToken>) {
    let mut guard = match list.lock() {
        Ok(guard) => guard,
        Err(poisoned) => poisoned.into_inner(),
    };
    guard.push(token);
}

/// Takes the list behind the lock out, leaving it empty (`Mutex::lock`, then
/// `std::mem::take`). The lock is held for the take alone. What the list held is left
/// unsaid: other holders of the signal share it.
#[verifier::external_body]
fn list_take(list: &Mutex<Vec<Arc<CallbackToken>>>) -> Vec<Arc<CallbackToken>> {
    let mut guard = match list.lock() {
        Ok(guard) => guard,
        Err(poisoned) => poisoned.into_inner(),
    };
    std::mem::take(&mut *guard)
}

/// Appends `tokens`, in order, to the list behind the lock (`Mutex::lock`, then
/// `Vec::extend`). The lock is held for the append alone. Nothing is said of the list.
#[verifier::external_body]
fn list_extend(list: &Mutex<Vec<Arc<CallbackToken>>>, tokens: Vec<Arc<CallbackToken>>) {
    let mut guard = match list.lock() {
        Ok(guard) => guard,
        Err(poisoned) => poisoned.into_inner(),
    };
    guard.extend(tokens);
}

/// `Arc::strong_count`: how many holders share `token`, at least the caller's.
#[verifier::external_body]
fn holders(token: &Arc<CallbackToken>) -> (r: usize)
    ensures
        r >= 1,
{
    Arc::strong_count(token)
}

/// `Arc::clone`: another pointer to the same allocation, so the same value.
#[verifier::external_body]
fn share<T: ?Sized>(a: &Arc<T>) -> (r: Arc<T>)
    ensures
        r == *a,
{
    Arc::clone(a)
}

/// What a subscription and the signal's list share: the id of the callback.
pub struct CallbackToken {
    callback: u64,
}

impl CallbackToken {
    pub closed spec fn spec_callback(&self) -> u64 {
        self.callback
    }
}

/// A subscription to a signal: its callback stays registered while the subscription (or a
/// clone of it) is alive.
#[derive(Clone)]
pub struct SignalSubscription {
    token: Arc<CallbackToken>,
    inner_id: u64,
}

impl SignalSubscription {
    pub closed spec fn spec_id(&self) -> u64 {
        self.inner_id
    }

    pub closed spec fn spec_callback(&self) -> u64 {
        self.token.spec_callback()
    }

    /// The id of the signal subscribed to.
    pub fn id(&self) -> (r: u64)
        ensures
            r == self.spec_id(),
    {
        self.inner_id
    }
}

/// What every signal offers whatever its value type: its id and subscription.
pub trait ErasedSignal {
    fn id(&self) -> u64;

    fn subscribe_callback(&self, callback: u64) -> SignalSubscription;
}

/// A signal seen without its value type.
pub struct ErasedSignalHandle {
    id: u64,
    subscriptions: Arc<Mutex<Vec<Arc<CallbackToken>>>>,
}

impl Clone for ErasedSignalHandle {
    fn clone(&self) -> (r: Self)
        ensures
            r == *self,
    {
        ErasedSignalHandle { id: self.id, subscriptions: share(&self.subscriptions) }
    }
}

impl ErasedSignalHandle {
    pub closed spec fn spec_id(&self) -> u64 {
        self.id
    }

    /// The id of the signal.
    pub fn id(&self) -> (r: u64)
        ensures
            r == self.spec_id(),
    {
        self.id
    }

    /// Subscribes the callback `callback`, kept by the host `H`, to the signal.
    pub fn subscribe_callback<H: SignalHost>(&self, callback: u64) -> (r: SignalSubscription)
        ensures
            r.spec_id() == self.spec_id(),
            r.spec_callback() == callback,
            call_ensures(H::retain, (callback,), ()),
    {
        subscribe_to::<H>(&self.subscriptions, self.id, callback)
    }
}

/// Adds a subscription of `callback` to `list`, for the signal `id`.
fn subscribe_to<H: SignalHost>(list: &Arc<Mutex<Vec<Arc<CallbackToken>>>>, id: u64, callback: u64) -> (r:
    SignalSubscription)
    ensures
        r.spec_id() == id,
        r.spec_callback() == callback,
        call_ensures(H::retain, (callback,), ()),
{
    H::retain(callback);
    let token = Arc::new(CallbackToken { callback });
    let entry = share(&token);
    list_push(&**list, entry);
    SignalSubscription { token, inner_id: id }
}

/// `kept` and `dropped` list the positions `0..n` in increasing order, each position in
/// exactly one of them.
pub open spec fn splits(kept: Seq<int>, dropped: Seq<int>, n: int) -> bool {
    &&& forall|i: int| 0 <= i < kept.len() ==> 0 <= #[trigger] kept[i] < n
    &&& forall|i: int| 0 <= i < dropped.len() ==> 0 <= #[trigger] dropped[i] < n
    &&& forall|i: int, j: int| 0 <= i < j < kept.len() ==> kept[i] < kept[j]
    &&& forall|i: int, j: int| 0 <= i < j < dropped.len() ==> dropped[i] < dropped[j]
    &&& forall|j: int| 0 <= j < n ==> (kept.contains(j) <==> !dropped.contains(j))
}

/// Splits the subscriptions of `list` into those still held by a subscription, which stay,
/// and those no subscription holds any more, which leave; returns the callbacks of each,
/// in order.
pub fn sweep(list: &mut Vec<Arc<CallbackToken>>) -> (r: (Vec<u64>, Vec<u64>))
    ensures
        r.0@.len() == final(list)@.len(),
        forall|i: int| 0 <= i < r.0@.len() ==> r.0@[i] == (#[trigger] final(list)@[i]).spec_callback(),
        forall|i: int| 0 <= i < final(list)@.len() ==> old(list)@.contains(#[trigger] final(list)@[i]),
        r.0@.len() + r.1@.len() == old(list)@.len(),
        exists|kept: Seq<int>, dropped: Seq<int>|
            #[trigger] splits(kept, dropped, old(list)@.len() as int) && kept.len() == final(list)@.len()
                && dropped.len() == r.1@.len() && (forall|i: int|
                0 <= i < kept.len() ==> final(list)@[i] == old(list)@[#[trigger] kept[i]]) && (
            forall|i: int|
                0 <= i < dropped.len() ==> r.1@[i] == old(list)@[#[trigger] dropped[i]].spec_callback()),
{
    let mut kept: Vec<Arc<CallbackToken>> = Vec::new();
    let mut live: Vec<u64> = Vec::new();
    let mut gone: Vec<u64> = Vec::new();
    let ghost mut ki: Seq<int> = Seq::empty();
    let ghost mut di: Seq<int> = Seq::empty();
    let mut i: usize = 0;
    while i < list.len()
        invariant
            i <= list@.len(),
            list@ == old(list)@,
            live@.len() == kept@.len(),
            live@.len() + gone@.len() == i,
            forall|k: int| 0 <= k < live@.len() ==> live@[k] == (#[trigger] kept@[k]).callback,
            forall|k: int| 0 <= k < kept@.len() ==> old(list)@.contains(#[trigger] kept@[k]),
            splits(ki, di, i as int),
            ki.len() == kept@.len(),
            di.len() == gone@.len(),
            forall|k: int| 0 <= k < ki.len() ==> kept@[k] == old(list)@[#[trigger] ki[k]],
            forall|k: int| 0 <= k < di.len() ==> gone@[k] == old(list)@[#[trigger] di[k]].callback,
        decreases list@.len() - i,
    {
        let callback = list[i].callback;
        let ghost pk = ki;
        let ghost pd = di;
        if holders(&list[i]) > 1 {
            let token = share(&list[i]);
            proof {
                assert(old(list)@[i as int] == token);
                ki = ki.push(i as int);
                assert(ki[ki.len() - 1] == i);
            }
            kept.push(token);
            live.push(callback);
        } else {
            proof {
                di = di.push(i as int);
                assert(di[di.len() - 1] == i);
            }
            gone.push(callback);
        }
        proof {
            assert forall|j: int| 0 <= j < i + 1 implies (ki.contains(j) <==> !di.contains(j)) by {
                if j < i {
                    if pk.contains(j) {
                        let t = choose|t: int| 0 <= t < pk.len() && pk[t] == j;
                        assert(ki[t] == j);
                    }
                    if pd.contains(j) {
                        let t = choose|t: int| 0 <= t < pd.len() && pd[t] == j;
                        assert(di[t] == j);
                    }
                    if ki.contains(j) {
                        let t = choose|t: int| 0 <= t < ki.len() && ki[t] == j;
                        if t < pk.len() {
                            assert(pk[t] == j);
                        }
                    }
                    if di.contains(j) {
                        let t = choose|t: int| 0 <= t < di.len() && di[t] == j;
                        if t < pd.len() {
                            assert(pd[t] == j);
                        }
                    }
                } else {
                    if ki.contains(j) && di.contains(j) {
                        let t = choose|t: int| 0 <= t < ki.len() && ki[t] == j;
                        let u = choose|u: int| 0 <= u < di.len() && di[u] == j;
                        if t < pk.len() {
                            assert(pk[t] < i);
                        }
                        if u < pd.len() {
                            assert(pd[u] < i);
                        }
                    }
                }
            }
        }
        i = i + 1;
    }
    proof {
        assert(splits(ki, di, list@.len() as int));
    }
    *list = kept;
    (live, gone)
}

/// Some handle of `s` is the signal `id`.
pub open spec fn has_signal(s: Seq<ErasedSignalHandle>, id: u64) -> bool {
    exists|j: int| 0 <= j < s.len() && (#[trigger] s[j]).spec_id() == id
}

/// The first read of each signal in `reads`, in order.
pub open spec fn first_reads(reads: Seq<ErasedSignalHandle>) -> Seq<ErasedSignalHandle>
    decreases reads.len(),
{
    if reads.len() == 0 {
        Seq::empty()
    } else {
        let earlier = first_reads(reads.drop_last());
        if has_signal(earlier, reads.last().spec_id()) {
            earlier
        } else {
            earlier.push(reads.last())
        }
    }
}

/// The signals of `reads`, each once, in the order of their first read.
pub fn unique_reads(reads: Vec<ErasedSignalHandle>) -> (r: Vec<ErasedSignalHandle>)
    ensures
        r@ == first_reads(reads@),
        forall|i: int, j: int| 0 <= i < j < r@.len() ==> r@[i].spec_id() != r@[j].spec_id(),
        forall|i: int| 0 <= i < r@.len() ==> reads@.contains(#[trigger] r@[i]),
        forall|i: int| 0 <= i < reads@.len() ==> has_signal(r@, #[trigger] reads@[i].spec_id()),
{
    let mut unique: Vec<ErasedSignalHandle> = Vec::new();
    let mut i: usize = 0;
    while i < reads.len()
        invariant
            i <= reads@.len(),
            forall|a: int, b: int|
                0 <= a < b < unique@.len() ==> unique@[a].spec_id() != unique@[b].spec_id(),
            forall|a: int| 0 <= a < unique@.len() ==> reads@.contains(#[trigger] unique@[a]),
            forall|a: int| 0 <= a < i ==> has_signal(unique@, #[trigger] reads@[a].spec_id()),
            unique@ == first_reads(reads@.subrange(0, i as int)),
        decreases reads@.len() - i,
    {
        let id = reads[i].id();
        let mut seen = false;
        let mut k: usize = 0;
        while k < unique.len()
            invariant
                k <= unique@.len(),
                seen <==> exists|j: int| 0 <= j < k && unique@[j].spec_id() == id,
            decreases unique@.len() - k,
        {
            if unique[k].id() == id {
                seen = true;
            }
            k = k + 1;
        }
        let ghost prev = unique@;
        proof {
            assert(reads@.subrange(0, i + 1).drop_last() =~= reads@.subrange(0, i as int));
            assert(reads@.subrange(0, i + 1).last() == reads@[i as int]);
            if seen {
                let j = choose|j: int| 0 <= j < k && unique@[j].spec_id() == id;
                assert(has_signal(prev, reads@[i as int].spec_id()));
            } else {
                assert(!has_signal(prev, reads@[i as int].spec_id()));
            }
        }
        if !seen {
            let handle = reads[i].clone();
            unique.push(handle);
        }
        proof {
            assert forall|a: int| 0 <= a < i + 1 implies has_signal(
                unique@,
                #[trigger] reads@[a].spec_id(),
            ) by {
                if a < i {
                    let j = choose|j: int|
                        0 <= j < prev.len() && (#[trigger] prev[j]).spec_id()
                            == reads@[a].spec_id();
                    assert(unique@[j] == prev[j]);
                } else if seen {
                    let j = choose|j: int| 0 <= j < prev.len() && prev[j].spec_id() == id;
                    assert(unique@[j] == prev[j]);
                } else {
                    assert(unique@[prev.len() as int].spec_id() == id);
                }
            }
        }
        i = i + 1;
    }
    proof {
        assert(reads@.subrange(0, reads@.len() as int) =~= reads@);
    }
    unique
}

#[verifier::reject_recursive_types(T)]
struct SignalInner<T: Send + Sync + 'static> {
    id: u64,
    value: RwLock<T>,
    subscriptions: Arc<Mutex<Vec<Arc<CallbackToken>>>>,
}

/// The read side of a signal whose host is `H`.
#[verifier::reject_recursive_types(T)]
pub struct Signal<T: Send + Sync + 'static, H: SignalHost> {
    inner: Arc<SignalInner<T>>,
    host: std::marker::PhantomData<H>,
}

/// The write side of a signal whose host is `H`.
#[verifier::reject_recursive_types(T)]
pub struct Setter<T: Send + Sync + 'static, H: SignalHost> {
    inner: Arc<SignalInner<T>>,
    host: std::marker::PhantomData<H>,
}

impl<T: Send + Sync + 'static, H: SignalHost> Clone for Signal<T, H> {
    fn clone(&self) -> (r: Self)
        ensures
            r.spec_id() == self.spec_id(),
    {
        Signal { inner: share(&self.inner), host: std::marker::PhantomData }
    }
}

impl<T: Send + Sync + 'static, H: SignalHost> Clone for Setter<T, H> {
    fn clone(&self) -> (r: Self)
        ensures
            r.spec_id() == self.spec_id(),
    {
        Setter { inner: share(&self.inner), host: std::marker::PhantomData }
    }
}

/// A new signal holding `value`, with a fresh id from the host, and its setter.
pub fn signal<T: Send + Sync + 'static, H: SignalHost>(value: T) -> (r: (Signal<T, H>, Setter<
    T,
    H,
>))
    ensures
        r.0.spec_id() == r.1.spec_id(),
{
    let id = H::next_signal_id();
    let inner = Arc::new(
        SignalInner { id, value: lock_new(value), subscriptions: Arc::new(list_new()) },
    );
    (
        Signal { inner: share(&inner), host: std::marker::PhantomData },
        Setter { inner, host: std::marker::PhantomData },
    )
}

impl<T: Send + Sync + 'static, H: SignalHost> Signal<T, H> {
    pub closed spec fn spec_id(&self) -> u64 {
        self.inner.id
    }

    /// Whether `v` was read as the value of the signal.
    pub closed spec fn read(&self, v: T) -> bool where T: Clone {
        call_ensures(lock_load::<T>, (&self.inner.value,), v)
    }

    /// The current value; the read is recorded with the host.
    pub fn get(&self) -> (r: T) where T: Clone
        ensures
            exists|h: ErasedSignalHandle|
                h.spec_id() == self.spec_id() && #[trigger] call_ensures(H::record_read, (h,), ()),
            self.read(r),
    {
        let handle = self.erase();
        let ghost h = handle;
        H::record_read(handle);
        proof {
            assert(call_ensures(H::record_read, (h,), ()));
        }
        let v = lock_load(&self.inner.value);
        proof {
            assert(call_ensures(lock_load::<T>, (&self.inner.value,), v));
        }
        v
    }

    /// Subscribes the callback `callback`, which the host runs after each write while the
    /// subscription lives.
    pub fn subscribe(&self, callback: u64) -> (r: SignalSubscription)
        ensures
            r.spec_id() == self.spec_id(),
            r.spec_callback() == callback,
            call_ensures(H::retain, (callback,), ()),
    {
        subscribe_to::<H>(&self.inner.subscriptions, self.inner.id, callback)
    }

    /// The signal without its value type.
    pub fn erase(&self) -> (r: ErasedSignalHandle)
        ensures
            r.spec_id() == self.spec_id(),
    {
        ErasedSignalHandle { id: self.inner.id, subscriptions: share(&self.inner.subscriptions) }
    }
}

impl<T: Send + Sync + 'static, H: SignalHost> ErasedSignal for Signal<T, H> {
    fn id(&self) -> (r: u64)
        ensures
            r == self.spec_id(),
    {
        self.inner.id
    }

    fn subscribe_callback(&self, callback: u64) -> (r: SignalSubscription)
        ensures
            r.spec_id() == self.spec_id(),
            r.spec_callback() == callback,
    {
        self.subscribe(callback)
    }
}

impl<T: Send + Sync + 'static, H: SignalHost> Setter<T, H> {
    pub closed spec fn spec_id(&self) -> u64 {
        self.inner.id
    }

    /// Whether `v` was stored as the value of the signal.
    pub closed spec fn wrote(&self, v: T) -> bool {
        call_ensures(lock_store::<T>, (&self.inner.value, v), ())
    }

    /// Stores `value`, then hands each callback still subscribed to the host, in the order
    /// of subscription: queued while a batch is open, run at once otherwise. Callbacks whose
    /// subscriptions are gone leave the list and are released.
    pub fn set(&self, value: T)
        ensures
            self.wrote(value),
            exists|p: (Vec<u64>, Vec<u64>)| #[trigger] swept(p) && notified::<H>(p.0@, p.1@),
    {
        let ghost v = value;
        lock_store(&self.inner.value, value);
        proof {
            assert(call_ensures(lock_store::<T>, (&self.inner.value, v), ()));
        }
        notify::<H>(&self.inner.subscriptions);
    }

    /// Lets `f` change a copy of the current value, stores the result, and notifies as
    /// `set` does. No lock is held while `f` runs.
    pub fn update<F: FnOnce(&mut T)>(&self, f: F) where T: Clone
        requires
            forall|m: &mut T| #[trigger] call_requires(f, (m,)),
        ensures
            exists|m: &mut T|
                #[trigger] call_ensures(f, (m,), ()) && self.wrote(mut_ref_future(m)),
            exists|p: (Vec<u64>, Vec<u64>)| #[trigger] swept(p) && notified::<H>(p.0@, p.1@),
    {
        let mut value = lock_load(&self.inner.value);
        f(&mut value);
        let ghost v = value;
        lock_store(&self.inner.value, value);
        proof {
            assert(call_ensures(lock_store::<T>, (&self.inner.value, v), ()));
        }
        notify::<H>(&self.inner.subscriptions);
    }
}

/// `p` is what `sweep` gave on the list of a signal: the callbacks still subscribed and
/// those whose subscriptions are gone.
pub open spec fn swept(p: (Vec<u64>, Vec<u64>)) -> bool {
    exists|m: &mut Vec<Arc<CallbackToken>>| #[trigger] call_ensures(sweep, (m,), p)
}

/// `callback` went to the host: queued if a batch was open, run otherwise.
pub open spec fn delivered<H: SignalHost>(callback: u64) -> bool {
    exists|open: bool|
        #[trigger] call_ensures(H::batching, (), open) && (open ==> call_ensures(
            H::enqueue,
            (callback,),
            (),
        )) && (!open ==> call_ensures(H::run, (callback,), ()))
}

/// Each of `live` was delivered and each of `gone` released.
pub open spec fn notified<H: SignalHost>(live: Seq<u64>, gone: Seq<u64>) -> bool {
    &&& forall|i: int| 0 <= i < live.len() ==> delivered::<H>(#[trigger] live[i])
    &&& forall|i: int| 0 <= i < gone.len() ==> call_ensures(H::release, (#[trigger] gone[i],), ())
}

/// Runs or queues the callbacks still subscribed to a signal, releasing the others.
fn notify<H: SignalHost>(subscriptions: &Arc<Mutex<Vec<Arc<CallbackToken>>>>)
    ensures
        exists|p: (Vec<u64>, Vec<u64>)| #[trigger] swept(p) && notified::<H>(p.0@, p.1@),
{
    let mut list = list_take(&**subscriptions);
    let p = sweep(&mut list);
    proof {
        assert(swept(p));
    }
    list_extend(&**subscriptions, list);
    let (live, gone) = p;
    let mut i: usize = 0;
    while i < gone.len()
        invariant
            i <= gone@.len(),
            forall|j: int| 0 <= j < i ==> call_ensures(H::release, (#[trigger] gone@[j],), ()),
        decreases gone@.len() - i,
    {
        H::release(gone[i]);
        i = i + 1;
    }
    let mut k: usize = 0;
    while k < live.len()
        invariant
            k <= live@.len(),
            forall|j: int| 0 <= j < k ==> delivered::<H>(#[trigger] live@[j]),
        decreases live@.len() - k,
    {
        deliver::<H>(live[k]);
        k = k + 1;
    }
    proof {
        assert(notified::<H>(p.0@, p.1@));
    }
}

/// Queues `callback` while a batch is open, runs it otherwise.
fn deliver<H: SignalHost>(callback: u64)
    ensures
        delivered::<H>(callback),
{
    let open = H::batching();
    if open {
        H::enqueue(callback);
    } else {
        H::run(callback);
    }
    proof {
        assert(call_ensures(H::batching, (), open));
    }
}

/// The callbacks of `s`, each once, in the order of its first occurrence.
pub open spec fn first_occurrences(s: Seq<u64>) -> Seq<u64>
    decreases s.len(),
{
    if s.len() == 0 {
        Seq::empty()
    } else {
        let earlier = first_occurrences(s.drop_last());
        if earlier.contains(s.last()) {
            earlier
        } else {
            earlier.push(s.last())
        }
    }
}

/// The callbacks of `callbacks`, each once, in the order of its first occurrence.
pub fn distinct_callbacks(callbacks: &Vec<u64>) -> (r: Vec<u64>)
    ensures
        r@ == first_occurrences(callbacks@),
{
    let mut out: Vec<u64> = Vec::new();
    let mut i: usize = 0;
    while i < callbacks.len()
        invariant
            i <= callbacks@.len(),
            out@ == first_occurrences(callbacks@.take(i as int)),
        decreases callbacks@.len() - i,
    {
        let c = callbacks[i];
        let mut seen = false;
        let mut k: usize = 0;
        while k < out.len()
            invariant
                k <= out@.len(),
                seen <==> exists|j: int| 0 <= j < k && out@[j] == c,
            decreases out@.len() - k,
        {
            if out[k] == c {
                seen = true;
            }
            k = k + 1;
        }
        proof {
            assert(callbacks@.take(i + 1).drop_last() =~= callbacks@.take(i as int));
            assert(callbacks@.take(i + 1).last() == c);
            if seen {
                let j = choose|j: int| 0 <= j < k && out@[j] == c;
                assert(out@.contains(c));
            } else {
                assert(!out@.contains(c));
            }
        }
        if !seen {
            out.push(c);
        }
        i = i + 1;
    }
    proof {
        assert(callbacks@.take(callbacks@.len() as int) =~= callbacks@);
    }
    out
}

/// Each callback of `queued` ran once, in the order of its first notification.
pub open spec fn ran_once_each<H: SignalHost>(queued: Seq<u64>) -> bool {
    forall|i: int|
        #![trigger first_occurrences(queued)[i]]
        0 <= i < first_occurrences(queued).len() ==> call_ensures(
            H::run,
            (first_occurrences(queued)[i],),
            (),
        )
}

/// What a batch does around its closure: where no batch was open, it opened one, and on
/// closing it ran each callback that the batch collected once.
pub open spec fn batch_done<H: SignalHost>() -> bool {
    exists|open: bool|
        #[trigger] call_ensures(H::batching, (), open) && (!open ==> call_ensures(
            H::open_batch,
            (),
            (),
        ) && exists|queued: Vec<u64>|
            #[trigger] call_ensures(H::close_batch, (), queued) && ran_once_each::<H>(queued@))
}

/// Runs `f`; the callbacks that its writes notify run once it is done, each once, in the
/// order first notified. Inside an open batch, `f` just runs and the open batch collects
/// them.
pub fn batch<H: SignalHost, F: FnOnce()>(f: F)
    requires
        f.requires(()),
    ensures
        f.ensures((), ()),
        batch_done::<H>(),
{
    let open = H::batching();
    if open {
        f();
        return;
    }
    H::open_batch();
    f();
    let queued = H::close_batch();
    let callbacks = distinct_callbacks(&queued);
    let mut i: usize = 0;
    while i < callbacks.len()
        invariant
            i <= callbacks@.len(),
            callbacks@ == first_occurrences(queued@),
            forall|j: int| 0 <= j < i ==> call_ensures(H::run, (#[trigger] callbacks@[j],), ()),
        decreases callbacks@.len() - i,
    {
        H::run(callbacks[i]);
        i = i + 1;
    }
    proof {
        assert(call_ensures(H::close_batch, (), queued));
        assert(ran_once_each::<H>(queued@));
        assert(call_ensures(H::batching, (), open));
    }
}

/// Runs `f` and returns its result with the signals it read, each once, in the order of
/// their first read.
pub fn collect_reads<H: SignalHost, R, F: FnOnce() -> R>(f: F) -> (r: (R, Vec<ErasedSignalHandle>))
    requires
        f.requires(()),
    ensures
        f.ensures((), r.0),
        call_ensures(H::start_tracking, (), ()),
        exists|reads: Vec<ErasedSignalHandle>|
            #[trigger] call_ensures(H::stop_tracking, (), reads) && r.1@ == first_reads(reads@),
        forall|i: int, j: int|
            0 <= i < j < r.1@.len() ==> r.1@[i].spec_id() != r.1@[j].spec_id(),
{
    H::start_tracking();
    let result = f();
    let reads = H::stop_tracking();
    proof {
        assert(call_ensures(H::stop_tracking, (), reads));
    }
    (result, unique_reads(reads))
}

/// A new signal and its setter (see `signal`).
pub fn use_signal<T: Send + Sync + 'static, H: SignalHost>(value: T) -> (r: (Signal<T, H>, Setter<
    T,
    H,
>))
    ensures
        r.0.spec_id() == r.1.spec_id(),
{
    signal::<T, H>(value)
}

/// A new signal and its setter (see `signal`).
pub fn create_signal<T: Send + Sync + 'static, H: SignalHost>(value: T) -> (r: (
    Signal<T, H>,
    Setter<T, H>,
))
    ensures
        r.0.spec_id() == r.1.spec_id(),
{
    use_signal::<T, H>(value)
}

/// Groups updates (see `batch`).
pub fn batch_updates<H: SignalHost, F: FnOnce()>(f: F)
    requires
        f.requires(()),
    ensures
        f.ensures((), ()),
        batch_done::<H>(),
{
    batch::<H, F>(f)
}

/// The callbacks that writes queue while a batch is open.
pub struct BatchQueue {
    queue: Option<Vec<u64>>,
}

/// The queue after a write notifies `callback`: it joins an open batch unless it is
/// queued already; with no batch open, nothing is queued.
pub open spec fn with_enqueued(queue: Option<Seq<u64>>, callback: u64) -> Option<Seq<u64>> {
    match queue {
        Some(q) => if q.contains(callback) {
            Some(q)
        } else {
            Some(q.push(callback))
        },
        None => None,
    }
}

/// The queue after notifying each of `callbacks` in turn.
pub open spec fn with_all_enqueued(queue: Option<Seq<u64>>, callbacks: Seq<u64>) -> Option<Seq<u64>>
    decreases callbacks.len(),
{
    if callbacks.len() == 0 {
        queue
    } else {
        with_enqueued(with_all_enqueued(queue, callbacks.drop_last()), callbacks.last())
    }
}

impl BatchQueue {
    /// The callbacks queued in the open batch; none when no batch is open.
    pub closed spec fn queued(&self) -> Option<Seq<u64>> {
        match self.queue {
            Some(q) => Some(q@),
            None => None,
        }
    }

    /// No batch open.
    pub fn new() -> (r: Self)
        ensures
            r.queued() is None,
    {
        BatchQueue { queue: None }
    }

    /// Whether a batch is open.
    pub fn is_open(&self) -> (r: bool)
        ensures
            r == self.queued() is Some,
    {
        self.queue.is_some()
    }

    /// Opens a batch with nothing queued.
    pub fn open(&mut self)
        ensures
            final(self).queued() == Some(Seq::<u64>::empty()),
    {
        self.queue = Some(Vec::new());
    }

    /// Queues `callback` in the open batch, if any, unless it is queued already.
    pub fn enqueue(&mut self, callback: u64)
        ensures
            final(self).queued() == with_enqueued(old(self).queued(), callback),
    {
        match self.queue.take() {
            Some(mut q) => {
                let mut seen = false;
                let mut k: usize = 0;
                while k < q.len()
                    invariant
                        k <= q@.len(),
                        seen <==> exists|j: int| 0 <= j < k && q@[j] == callback,
                    decreases q@.len() - k,
                {
                    if q[k] == callback {
                        seen = true;
                    }
                    k = k + 1;
                }
                proof {
                    if seen {
                        let j = choose|j: int| 0 <= j < k && q@[j] == callback;
                        assert(q@.contains(callback));
                    }
                }
                if !seen {
                    q.push(callback);
                }
                self.queue = Some(q);
            },
            None => {},
        }
    }

    /// Closes the batch: the callbacks queued, in order (none when no batch was open).
    pub fn close(&mut self) -> (r: Vec<u64>)
        ensures
            r@ == match old(self).queued() {
                Some(q) => q,
                None => Seq::<u64>::empty(),
            },
            final(self).queued() is None,
    {
        match self.queue.take() {
            Some(q) => q,
            None => Vec::new(),
        }
    }
}

/// A batch coalesces notifications: the callbacks notified while it is open come out when
/// it closes each once, however often notified, in the order first notified, and none is
/// lost.
pub proof fn lemma_batch_collects_notifications(callbacks: Seq<u64>)
    ensures
        with_all_enqueued(Some(Seq::<u64>::empty()), callbacks) == Some(
            first_occurrences(callbacks),
        ),
        first_occurrences(callbacks).no_duplicates(),
        forall|c: u64| first_occurrences(callbacks).contains(c) <==> callbacks.contains(c),
    decreases callbacks.len(),
{
    if callbacks.len() > 0 {
        let init = callbacks.drop_last();
        let last = callbacks.last();
        lemma_batch_collects_notifications(init);
        let e = first_occurrences(init);
        assert forall|c: u64| first_occurrences(callbacks).contains(c) <==> callbacks.contains(c) by {
            if callbacks.contains(c) {
                let j = choose|j: int| 0 <= j < callbacks.len() && callbacks[j] == c;
                if j < init.len() {
                    assert(init[j] == c);
                    assert(init.contains(c));
                }
            }
            if init.contains(c) {
                let j = choose|j: int| 0 <= j < init.len() && init[j] == c;
                assert(callbacks[j] == c);
            }
            if !e.contains(last) && e.push(last).contains(c) {
                let j = choose|j: int| 0 <= j < e.push(last).len() && e.push(last)[j] == c;
                if j < e.len() {
                    assert(e[j] == c);
                }
            }
            if !e.contains(last) && e.contains(c) {
                let j = choose|j: int| 0 <= j < e.len() && e[j] == c;
                assert(e.push(last)[j] == c);
            }
            assert(callbacks[callbacks.len() - 1] == last);
            if !e.contains(last) {
                assert(e.push(last)[e.len() as int] == last);
            }
        }
        if !e.contains(last) {
            assert forall|a: int, b: int| 0 <= a < b < e.push(last).len() implies e.push(last)[a]
                != e.push(last)[b] by {
                if b == e.len() {
                    assert(e[a] == e.push(last)[a]);
                }
            }
        }
    } else {
        assert(callbacks =~= Seq::<u64>::empty());
    }
}

/// The signals read while tracking is on, each once.
pub struct ReadTracker {
    reads: Option<Vec<ErasedSignalHandle>>,
}

impl ReadTracker {
    /// The reads recorded; none when tracking is off.
    pub closed spec fn recorded(&self) -> Option<Seq<ErasedSignalHandle>> {
        match self.reads {
            Some(r) => Some(r@),
            None => None,
        }
    }

    /// Tracking off.
    pub fn new() -> (r: Self)
        ensures
            r.recorded() is None,
    {
        ReadTracker { reads: None }
    }

    /// Turns tracking on, with nothing recorded.
    pub fn start(&mut self)
        ensures
            final(self).recorded() == Some(Seq::<ErasedSignalHandle>::empty()),
    {
        self.reads = Some(Vec::new());
    }

    /// Records a read of `handle`'s signal while tracking, unless it was read already.
    pub fn record(&mut self, handle: ErasedSignalHandle)
        ensures
            final(self).recorded() == match old(self).recorded() {
                Some(r) => if has_signal(r, handle.spec_id()) {
                    Some(r)
                } else {
                    Some(r.push(handle))
                },
                None => None,
            },
    {
        match self.reads.take() {
            Some(mut list) => {
                let id = handle.id();
                let mut seen = false;
                let mut k: usize = 0;
                while k < list.len()
                    invariant
                        k <= list@.len(),
                        seen <==> exists|j: int| 0 <= j < k && list@[j].spec_id() == id,
                    decreases list@.len() - k,
                {
                    if list[k].id() == id {
                        seen = true;
                    }
                    k = k + 1;
                }
                if !seen {
                    list.push(handle);
                }
                self.reads = Some(list);
            },
            None => {},
        }
    }

    /// Turns tracking off: the reads recorded, in order (none when it was off).
    pub fn stop(&mut self) -> (r: Vec<ErasedSignalHandle>)
        ensures
            r@ == match old(self).recorded() {
                Some(q) => q,
                None => Seq::<ErasedSignalHandle>::empty(),
            },
            final(self).recorded() is None,
    {
        match self.reads.take() {
            Some(q) => q,
            None => Vec::new(),
        }
    }
}

} // verus!
