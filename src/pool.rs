//! The credential pool: an ordered queue of keys, leased round-robin over
//! the keys that are not cooling down, and the single-writer message handler
//! that owns it.

use vstd::prelude::*;

verus! {

/// A credential and its cooldown. Two keys are the same key when their
/// secrets are equal.
#[derive(Debug)]
pub struct KeyStatus {
    /// The secret sent upstream.
    pub key: String,
    /// Unix time, in seconds, before which the key must not be leased.
    pub cooldown_until: Option<u64>,
}

impl View for KeyStatus {
    type V = (Seq<char>, Option<u64>);

    open spec fn view(&self) -> (Seq<char>, Option<u64>) {
        (self.key@, self.cooldown_until)
    }
}

impl Clone for KeyStatus {
    fn clone(&self) -> (r: KeyStatus)
        ensures
            r == *self,
    {
        KeyStatus { key: self.key.clone(), cooldown_until: self.cooldown_until }
    }
}

impl PartialEq for KeyStatus {
    fn eq(&self, other: &KeyStatus) -> (r: bool)
        ensures
            r == (self.key@ == other.key@),
    {
        self.key == other.key
    }
}

impl vstd::std_specs::cmp::PartialEqSpecImpl for KeyStatus {
    open spec fn obeys_eq_spec() -> bool {
        true
    }

    open spec fn eq_spec(&self, other: &KeyStatus) -> bool {
        self.key@ == other.key@
    }
}

/// A key may be leased at `now` when it has no cooldown or its cooldown has passed.
pub open spec fn available_at(k: KeyStatus, now: u64) -> bool {
    match k.cooldown_until {
        None => true,
        Some(t) => t <= now,
    }
}

impl KeyStatus {
    pub fn new(key: String) -> (r: KeyStatus)
        ensures
            r.key == key,
            r.cooldown_until is None,
    {
        KeyStatus { key, cooldown_until: None }
    }

    pub fn is_available(&self, now: u64) -> (r: bool)
        ensures
            r == available_at(*self, now),
    {
        match self.cooldown_until {
            None => true,
            Some(t) => t <= now,
        }
    }

    /// Puts the key in cooldown for `cooldown_secs` seconds from `now`
    /// (saturating at the largest time).
    pub fn set_429_cooldown(&mut self, now: u64, cooldown_secs: u64)
        ensures
            final(self).key == old(self).key,
            final(self).cooldown_until == Some(
                if now + cooldown_secs <= u64::MAX { (now + cooldown_secs) as u64 } else { u64::MAX },
            ),
    {
        self.cooldown_until = Some(now.saturating_add(cooldown_secs));
    }
}

/// No secret appears twice.
pub open spec fn unique_secrets(q: Seq<KeyStatus>) -> bool {
    forall|i: int, j: int| 0 <= i < j < q.len() ==> q[i].key@ != q[j].key@
}

/// Index of the first key of `q[i..]` available at `now`, or `q.len()`.
pub open spec fn lease_index_from(q: Seq<KeyStatus>, now: u64, i: int) -> int
    decreases q.len() - i,
{
    if i >= q.len() {
        q.len() as int
    } else if available_at(q[i], now) {
        i
    } else {
        lease_index_from(q, now, i + 1)
    }
}

/// Index of the first key available at `now`, or `q.len()` when none is.
pub open spec fn lease_index(q: Seq<KeyStatus>, now: u64) -> int {
    lease_index_from(q, now, 0)
}

/// The queue after leasing: the leased key moves to the tail.
pub open spec fn after_lease(q: Seq<KeyStatus>, now: u64) -> Seq<KeyStatus> {
    let p = lease_index(q, now);
    if p < q.len() {
        q.remove(p).push(q[p])
    } else {
        q
    }
}

/// Index of the key whose secret is `secret`, or `q.len()`.
pub open spec fn secret_index_from(q: Seq<KeyStatus>, secret: Seq<char>, i: int) -> int
    decreases q.len() - i,
{
    if i >= q.len() {
        q.len() as int
    } else if q[i].key@ == secret {
        i
    } else {
        secret_index_from(q, secret, i + 1)
    }
}

pub open spec fn secret_index(q: Seq<KeyStatus>, secret: Seq<char>) -> int {
    secret_index_from(q, secret, 0)
}

pub proof fn lemma_lease_index_from(q: Seq<KeyStatus>, now: u64, i: int)
    requires
        0 <= i <= q.len(),
    ensures
        i <= lease_index_from(q, now, i) <= q.len(),
        lease_index_from(q, now, i) < q.len() ==> available_at(q[lease_index_from(q, now, i)], now),
        forall|j: int| i <= j < lease_index_from(q, now, i) ==> !available_at(#[trigger] q[j], now),
    decreases q.len() - i,
{
    if i < q.len() && !available_at(q[i], now) {
        lemma_lease_index_from(q, now, i + 1);
    }
}

/// The leased index is the first available key; when it is `q.len()` no key is available.
pub proof fn lemma_lease_index(q: Seq<KeyStatus>, now: u64)
    ensures
        0 <= lease_index(q, now) <= q.len(),
        lease_index(q, now) < q.len() ==> available_at(q[lease_index(q, now)], now),
        forall|j: int| 0 <= j < lease_index(q, now) ==> !available_at(#[trigger] q[j], now),
{
    lemma_lease_index_from(q, now, 0);
}

pub proof fn lemma_secret_index_from(q: Seq<KeyStatus>, secret: Seq<char>, i: int)
    requires
        0 <= i <= q.len(),
    ensures
        i <= secret_index_from(q, secret, i) <= q.len(),
        secret_index_from(q, secret, i) < q.len() ==> q[secret_index_from(q, secret, i)].key@ == secret,
        forall|j: int| i <= j < secret_index_from(q, secret, i) ==> (#[trigger] q[j]).key@ != secret,
    decreases q.len() - i,
{
    if i < q.len() && q[i].key@ != secret {
        lemma_secret_index_from(q, secret, i + 1);
    }
}

/// The found index holds the secret; when it is `q.len()` no key holds it.
pub proof fn lemma_secret_index(q: Seq<KeyStatus>, secret: Seq<char>)
    ensures
        0 <= secret_index(q, secret) <= q.len(),
        secret_index(q, secret) < q.len() ==> q[secret_index(q, secret)].key@ == secret,
        forall|j: int| 0 <= j < secret_index(q, secret) ==> (#[trigger] q[j]).key@ != secret,
{
    lemma_secret_index_from(q, secret, 0);
}


/// Why the pool refused a request.
#[derive(Debug, PartialEq, Eq, Structural)]
pub enum KeyPoolError {
    /// The pool is empty or every key is cooling down.
    NoKeyAvailable,
    /// A delete named a key that the pool does not hold.
    KeyNotFound,
}

/// The pool's keys, as shown to an administrator.
#[derive(Debug)]
pub struct KeyStatusInfo {
    pub valid: Vec<KeyStatus>,
}

/// The ordered queue of keys. Secrets are unique; leasing rotates the
/// leased key to the tail.
pub struct KeyPool {
    queue: Vec<KeyStatus>,
}

/// The queue with the key of the same secret replaced by `key`; unchanged if
/// no key has that secret.
pub open spec fn after_return(q: Seq<KeyStatus>, key: KeyStatus) -> Seq<KeyStatus> {
    let p = secret_index(q, key.key@);
    if p < q.len() {
        q.update(p, key)
    } else {
        q
    }
}

/// A return changes what is stored (and must be saved) when the cooldown differs.
pub open spec fn return_changes(q: Seq<KeyStatus>, key: KeyStatus) -> bool {
    let p = secret_index(q, key.key@);
    p < q.len() && q[p].cooldown_until != key.cooldown_until
}

/// The queue with `key` appended, unless a key of that secret is already there.
pub open spec fn after_submit(q: Seq<KeyStatus>, key: KeyStatus) -> Seq<KeyStatus> {
    if secret_index(q, key.key@) < q.len() {
        q
    } else {
        q.push(key)
    }
}

/// The queue without the key of the same secret.
pub open spec fn after_delete(q: Seq<KeyStatus>, key: KeyStatus) -> Seq<KeyStatus> {
    let p = secret_index(q, key.key@);
    if p < q.len() {
        q.remove(p)
    } else {
        q
    }
}

/// The pool made from `keys` submitted in order.
pub open spec fn pool_of(keys: Seq<KeyStatus>) -> Seq<KeyStatus>
    decreases keys.len(),
{
    if keys.len() == 0 {
        Seq::empty()
    } else {
        after_submit(pool_of(keys.drop_last()), keys.last())
    }
}

impl View for KeyPool {
    type V = Seq<KeyStatus>;

    closed spec fn view(&self) -> Seq<KeyStatus> {
        self.queue@
    }
}

impl KeyPool {
    pub open spec fn wf(&self) -> bool {
        unique_secrets(self@)
    }

    fn find_secret(&self, secret: &String) -> (r: usize)
        ensures
            r == secret_index(self@, secret@),
    {
        proof {
            lemma_secret_index(self@, secret@);
        }
        let mut i: usize = 0;
        while i < self.queue.len()
            invariant
                i <= self.queue@.len(),
                secret_index(self@, secret@) == secret_index_from(self@, secret@, i as int),
            decreases self.queue.len() - i,
        {
            if self.queue[i].key == *secret {
                return i;
            }
            i += 1;
        }
        i
    }

    /// A pool holding `keys`, in order, without later repeats of a secret.
    pub fn new(keys: Vec<KeyStatus>) -> (r: KeyPool)
        ensures
            r.wf(),
            r@ == pool_of(keys@),
    {
        let mut pool = KeyPool { queue: Vec::new() };
        assert(pool@ =~= pool_of(keys@.subrange(0, 0)));
        let mut i: usize = 0;
        while i < keys.len()
            invariant
                i <= keys@.len(),
                pool.wf(),
                pool@ == pool_of(keys@.subrange(0, i as int)),
            decreases keys.len() - i,
        {
            let k = keys[i].clone();
            pool.submit(k);
            assert(keys@.subrange(0, i + 1).drop_last() =~= keys@.subrange(0, i as int));
            i += 1;
        }
        assert(keys@.subrange(0, i as int) =~= keys@);
        pool
    }

    /// Leases the first key available at `now`: it moves to the tail and a
    /// copy is returned. Fails when no key is available.
    pub fn dispatch(&mut self, now: u64) -> (r: Result<KeyStatus, KeyPoolError>)
        requires
            old(self).wf(),
        ensures
            final(self).wf(),
            final(self)@ == after_lease(old(self)@, now),
            lease_index(old(self)@, now) < old(self)@.len() ==> r == Ok::<KeyStatus, KeyPoolError>(
                old(self)@[lease_index(old(self)@, now)],
            ),
            lease_index(old(self)@, now) == old(self)@.len() ==> r == Err::<KeyStatus, KeyPoolError>(
                KeyPoolError::NoKeyAvailable,
            ),
            r is Ok ==> available_at(r->Ok_0, now),
    {
        proof {
            lemma_lease_index(self@, now);
        }
        let mut i: usize = 0;
        while i < self.queue.len()
            invariant
                i <= self.queue@.len(),
                self@ == old(self)@,
                self.wf(),
                lease_index(self@, now) == lease_index_from(self@, now, i as int),
            decreases self.queue.len() - i,
        {
            if self.queue[i].is_available(now) {
                let ghost q = self@;
                let key = self.queue.remove(i);
                let copy = key.clone();
                self.queue.push(key);
                assert(self@ =~= q.remove(i as int).push(q[i as int]));
                proof {
                    lemma_lease_unique(q, now);
                }
                return Ok(copy);
            }
            i += 1;
        }
        Err(KeyPoolError::NoKeyAvailable)
    }

    /// Stores `key` over the key of the same secret. Returns whether the
    /// cooldown changed, that is whether the pool must be saved. A key that
    /// the pool does not hold is dropped.
    pub fn collect(&mut self, key: KeyStatus) -> (changed: bool)
        requires
            old(self).wf(),
        ensures
            final(self).wf(),
            final(self)@ == after_return(old(self)@, key),
            changed == return_changes(old(self)@, key),
    {
        let p = self.find_secret(&key.key);
        proof {
            lemma_secret_index(self@, key.key@);
        }
        if p == self.queue.len() {
            return false;
        }
        let changed = self.queue[p].cooldown_until != key.cooldown_until;
        let ghost q = self@;
        let ghost k = key;
        self.queue.set(p, key);
        proof {
            lemma_return_unique(q, k);
        }
        changed
    }

    /// Appends `key` unless a key of the same secret is held. Returns whether
    /// it was added, that is whether the pool must be saved.
    pub fn submit(&mut self, key: KeyStatus) -> (added: bool)
        requires
            old(self).wf(),
        ensures
            final(self).wf(),
            final(self)@ == after_submit(old(self)@, key),
            added == (secret_index(old(self)@, key.key@) == old(self)@.len()),
    {
        let p = self.find_secret(&key.key);
        proof {
            lemma_secret_index(self@, key.key@);
        }
        if p < self.queue.len() {
            return false;
        }
        let ghost k = key;
        self.queue.push(key);
        proof {
            lemma_submit_unique(old(self)@, k);
        }
        true
    }

    /// Removes the key of the same secret as `key`; fails when none is held.
    pub fn delete(&mut self, key: &KeyStatus) -> (r: Result<(), KeyPoolError>)
        requires
            old(self).wf(),
        ensures
            final(self).wf(),
            final(self)@ == after_delete(old(self)@, *key),
            r is Ok <==> secret_index(old(self)@, key.key@) < old(self)@.len(),
            r is Err ==> r == Err::<(), KeyPoolError>(KeyPoolError::KeyNotFound),
    {
        let p = self.find_secret(&key.key);
        proof {
            lemma_secret_index(self@, key.key@);
        }
        if p == self.queue.len() {
            return Err(KeyPoolError::KeyNotFound);
        }
        let ghost q = self@;
        self.queue.remove(p);
        proof {
            lemma_delete_unique(q, *key);
        }
        Ok(())
    }

    /// A copy of the queue, in order.
    pub fn report(&self) -> (r: KeyStatusInfo)
        ensures
            r.valid@ == self@,
    {
        let mut valid: Vec<KeyStatus> = Vec::new();
        let mut i: usize = 0;
        while i < self.queue.len()
            invariant
                i <= self.queue@.len(),
                valid@ == self@.subrange(0, i as int),
            decreases self.queue.len() - i,
        {
            valid.push(self.queue[i].clone());
            assert(valid@ =~= self@.subrange(0, i + 1));
            i += 1;
        }
        assert(valid@ =~= self@);
        KeyStatusInfo { valid }
    }

    /// Handles one message at time `now`, the single place where the pool
    /// changes. The keys to save are given exactly when membership or a
    /// cooldown changed, and they are then the whole queue.
    pub fn handle(&mut self, msg: KeyActorMessage, now: u64) -> (out: HandleOutcome)
        requires
            old(self).wf(),
        ensures
            final(self).wf(),
            final(self)@ == pool_step(old(self)@, msg, now).0,
            out.save is Some == pool_step(old(self)@, msg, now).1,
            out.save is Some ==> out.save->Some_0.valid@ == final(self)@,
            match msg {
                KeyActorMessage::Request => out.reply is Key && (lease_index(old(self)@, now) < old(self)@.len()
                    ==> out.reply->Key_0 == Ok::<KeyStatus, KeyPoolError>(old(self)@[lease_index(old(self)@, now)]))
                    && (lease_index(old(self)@, now) == old(self)@.len()
                    ==> out.reply->Key_0 == Err::<KeyStatus, KeyPoolError>(KeyPoolError::NoKeyAvailable)),
                KeyActorMessage::GetStatus => out.reply is Status && out.reply->Status_0.valid@ == old(self)@,
                KeyActorMessage::Delete(k) => out.reply is Deleted
                    && (out.reply->Deleted_0 is Ok <==> secret_index(old(self)@, k.key@) < old(self)@.len())
                    && (out.reply->Deleted_0 is Err ==> out.reply->Deleted_0 == Err::<(), KeyPoolError>(KeyPoolError::KeyNotFound)),
                _ => out.reply is Nothing,
            },
    {
        let (reply, save) = match msg {
            KeyActorMessage::Return(k) => (KeyActorReply::Nothing, self.collect(k)),
            KeyActorMessage::Submit(k) => (KeyActorReply::Nothing, self.submit(k)),
            KeyActorMessage::Request => (KeyActorReply::Key(self.dispatch(now)), false),
            KeyActorMessage::GetStatus => (KeyActorReply::Status(self.report()), false),
            KeyActorMessage::Delete(k) => {
                let r = self.delete(&k);
                let removed = r.is_ok();
                (KeyActorReply::Deleted(r), removed)
            },
        };
        let save = if save { Some(self.report()) } else { None };
        HandleOutcome { reply, save }
    }

    pub fn len(&self) -> (r: usize)
        ensures
            r == self@.len(),
    {
        self.queue.len()
    }
}


/// A message to the pool's owner.
pub enum KeyActorMessage {
    /// A leased key comes back, possibly with a new cooldown.
    Return(KeyStatus),
    /// An administrator adds a key.
    Submit(KeyStatus),
    /// A request asks for a key.
    Request,
    /// An administrator asks for the list of keys.
    GetStatus,
    /// A key is removed, by an administrator or after a fatal rejection.
    Delete(KeyStatus),
}

/// What the owner answers.
pub enum KeyActorReply {
    /// Returns and submissions get no answer.
    Nothing,
    Key(Result<KeyStatus, KeyPoolError>),
    Status(KeyStatusInfo),
    Deleted(Result<(), KeyPoolError>),
}

/// The answer to a message, and the keys to save when the pool's membership
/// or a cooldown changed.
pub struct HandleOutcome {
    pub reply: KeyActorReply,
    pub save: Option<KeyStatusInfo>,
}

/// The queue after `msg` at time `now`, and whether it must be saved.
pub open spec fn pool_step(q: Seq<KeyStatus>, msg: KeyActorMessage, now: u64) -> (Seq<KeyStatus>, bool) {
    match msg {
        KeyActorMessage::Return(k) => (after_return(q, k), return_changes(q, k)),
        KeyActorMessage::Submit(k) => (after_submit(q, k), secret_index(q, k.key@) == q.len()),
        KeyActorMessage::Request => (after_lease(q, now), false),
        KeyActorMessage::GetStatus => (q, false),
        KeyActorMessage::Delete(k) => (after_delete(q, k), secret_index(q, k.key@) < q.len()),
    }
}

/// The queue and the last saved keys after each message of `msgs` (with the
/// time it was handled at), starting from queue `q` and saved keys `saved`.
pub open spec fn run_pool(q: Seq<KeyStatus>, saved: Seq<KeyStatus>, msgs: Seq<(KeyActorMessage, u64)>) -> (Seq<KeyStatus>, Seq<KeyStatus>)
    decreases msgs.len(),
{
    if msgs.len() == 0 {
        (q, saved)
    } else {
        let (next, save) = pool_step(q, msgs[0].0, msgs[0].1);
        run_pool(next, if save { next } else { saved }, msgs.drop_first())
    }
}

/// The pool holds an entry of that secret and cooldown.
pub open spec fn holds_entry(q: Seq<KeyStatus>, e: (Seq<char>, Option<u64>)) -> bool {
    exists|i: int| 0 <= i < q.len() && q[i]@ == e
}

/// The two queues hold the same entries, in any order.
pub open spec fn same_entries(a: Seq<KeyStatus>, b: Seq<KeyStatus>) -> bool {
    &&& a.len() == b.len()
    &&& forall|e: (Seq<char>, Option<u64>)| holds_entry(a, e) <==> holds_entry(b, e)
}

proof fn lemma_lease_unique(q: Seq<KeyStatus>, now: u64)
    requires
        unique_secrets(q),
    ensures
        unique_secrets(after_lease(q, now)),
        same_entries(q, after_lease(q, now)),
{
    lemma_lease_index(q, now);
    let p = lease_index(q, now);
    if p < q.len() {
        let r = after_lease(q, now);
        assert forall|a: int, b: int| 0 <= a < b < r.len() implies r[a].key@ != r[b].key@ by {
            let qa = if a < p { a } else { a + 1 };
            let qb = if b == r.len() - 1 { p } else if b < p { b } else { b + 1 };
            assert(r[a] == q[qa]);
            assert(r[b] == q[qb]);
        }
        assert forall|e: (Seq<char>, Option<u64>)| holds_entry(q, e) <==> holds_entry(r, e) by {
            if holds_entry(q, e) {
                let i = choose|i: int| 0 <= i < q.len() && q[i]@ == e;
                let j = if i == p { r.len() - 1 } else if i < p { i } else { i - 1 };
                assert(r[j] == q[i]);
            }
            if holds_entry(r, e) {
                let j = choose|j: int| 0 <= j < r.len() && r[j]@ == e;
                let i = if j == r.len() - 1 { p } else if j < p { j } else { j + 1 };
                assert(r[j] == q[i]);
            }
        }
    }
}

proof fn lemma_return_unique(q: Seq<KeyStatus>, k: KeyStatus)
    requires
        unique_secrets(q),
    ensures
        unique_secrets(after_return(q, k)),
        !return_changes(q, k) ==> same_entries(q, after_return(q, k)),
{
    lemma_secret_index(q, k.key@);
    let p = secret_index(q, k.key@);
    let r = after_return(q, k);
    if p < q.len() {
        assert forall|a: int, b: int| 0 <= a < b < r.len() implies r[a].key@ != r[b].key@ by {
            assert(r[a].key@ == q[a].key@);
            assert(r[b].key@ == q[b].key@);
        }
        if !return_changes(q, k) {
            assert forall|i: int| 0 <= i < q.len() implies r[i]@ == (#[trigger] q[i])@ by {}
            assert forall|e: (Seq<char>, Option<u64>)| holds_entry(q, e) <==> holds_entry(r, e) by {
                if holds_entry(q, e) {
                    let i = choose|i: int| 0 <= i < q.len() && q[i]@ == e;
                    assert(r[i]@ == e);
                }
                if holds_entry(r, e) {
                    let i = choose|i: int| 0 <= i < r.len() && r[i]@ == e;
                    assert(q[i]@ == e);
                }
            }
        }
    }
}

proof fn lemma_submit_unique(q: Seq<KeyStatus>, k: KeyStatus)
    requires
        unique_secrets(q),
    ensures
        unique_secrets(after_submit(q, k)),
{
    lemma_secret_index(q, k.key@);
    let r = after_submit(q, k);
    assert forall|a: int, b: int| 0 <= a < b < r.len() implies r[a].key@ != r[b].key@ by {
        if b == q.len() {
            assert(r[a] == q[a]);
        }
    }
}

proof fn lemma_delete_unique(q: Seq<KeyStatus>, k: KeyStatus)
    requires
        unique_secrets(q),
    ensures
        unique_secrets(after_delete(q, k)),
{
    lemma_secret_index(q, k.key@);
    let p = secret_index(q, k.key@);
    let r = after_delete(q, k);
    if p < q.len() {
        assert forall|a: int, b: int| 0 <= a < b < r.len() implies r[a].key@ != r[b].key@ by {
            let qa = if a < p { a } else { a + 1 };
            let qb = if b < p { b } else { b + 1 };
            assert(r[a] == q[qa]);
            assert(r[b] == q[qb]);
        }
    }
}

proof fn lemma_step(q: Seq<KeyStatus>, msg: KeyActorMessage, now: u64)
    requires
        unique_secrets(q),
    ensures
        unique_secrets(pool_step(q, msg, now).0),
        !pool_step(q, msg, now).1 ==> same_entries(q, pool_step(q, msg, now).0),
{
    match msg {
        KeyActorMessage::Return(k) => {
            lemma_return_unique(q, k);
            assert(pool_step(q, msg, now) == (after_return(q, k), return_changes(q, k)));
        },
        KeyActorMessage::Submit(k) => {
            lemma_submit_unique(q, k);
            lemma_secret_index(q, k.key@);
        },
        KeyActorMessage::Request => lemma_lease_unique(q, now),
        KeyActorMessage::GetStatus => {},
        KeyActorMessage::Delete(k) => {
            lemma_delete_unique(q, k);
            lemma_secret_index(q, k.key@);
        },
    }
}

/// Whatever messages the pool handles, no secret is ever held twice.
pub proof fn law_secrets_stay_unique(q: Seq<KeyStatus>, saved: Seq<KeyStatus>, msgs: Seq<(KeyActorMessage, u64)>)
    requires
        unique_secrets(q),
    ensures
        unique_secrets(run_pool(q, saved, msgs).0),
    decreases msgs.len(),
{
    if msgs.len() > 0 {
        lemma_step(q, msgs[0].0, msgs[0].1);
        let (next, save) = pool_step(q, msgs[0].0, msgs[0].1);
        law_secrets_stay_unique(next, if save { next } else { saved }, msgs.drop_first());
    }
}

/// Once the messages are handled, the last saved keys are the keys held:
/// the same secrets with the same cooldowns, though perhaps in another order,
/// as leasing reorders the queue without saving it.
pub proof fn law_saved_matches_pool(q: Seq<KeyStatus>, saved: Seq<KeyStatus>, msgs: Seq<(KeyActorMessage, u64)>)
    requires
        unique_secrets(q),
        same_entries(saved, q),
    ensures
        same_entries(run_pool(q, saved, msgs).1, run_pool(q, saved, msgs).0),
    decreases msgs.len(),
{
    if msgs.len() > 0 {
        lemma_step(q, msgs[0].0, msgs[0].1);
        let (next, save) = pool_step(q, msgs[0].0, msgs[0].1);
        if save {
            law_saved_matches_pool(next, next, msgs.drop_first());
        } else {
            law_saved_matches_pool(next, saved, msgs.drop_first());
        }
    }
}

/// With two or more keys available, two leases in a row at the same time
/// hand out two different keys.
pub proof fn law_lease_alternates(q: Seq<KeyStatus>, now: u64, other: int)
    requires
        unique_secrets(q),
        0 <= other < q.len(),
        available_at(q[other], now),
        other != lease_index(q, now),
    ensures
        lease_index(q, now) < q.len(),
        lease_index(after_lease(q, now), now) < q.len(),
        after_lease(q, now)[lease_index(after_lease(q, now), now)].key@ != q[lease_index(q, now)].key@,
{
    lemma_lease_index(q, now);
    let p = lease_index(q, now);
    let r = after_lease(q, now);
    assert(other > p);
    assert(r[other - 1] == q[other]);
    lemma_lease_index(r, now);
    let p2 = lease_index(r, now);
    assert(p2 <= other - 1);
    let i = if p2 < p { p2 } else { p2 + 1 };
    assert(r[p2] == q[i]);
}

/// The keys of `q` available at `now`, in queue order.
pub open spec fn available_keys(q: Seq<KeyStatus>, now: u64) -> Seq<KeyStatus>
    decreases q.len(),
{
    if q.len() == 0 {
        Seq::empty()
    } else {
        let rest = available_keys(q.drop_last(), now);
        if available_at(q.last(), now) {
            rest.push(q.last())
        } else {
            rest
        }
    }
}

/// The queue after `t` leases in a row at `now`, and the keys handed out.
pub open spec fn lease_run(q: Seq<KeyStatus>, now: u64, t: nat) -> (Seq<KeyStatus>, Seq<KeyStatus>)
    decreases t,
{
    if t == 0 {
        (q, Seq::empty())
    } else {
        let (cur, out) = lease_run(q, now, (t - 1) as nat);
        let p = lease_index(cur, now);
        if p < cur.len() {
            (after_lease(cur, now), out.push(cur[p]))
        } else {
            (cur, out)
        }
    }
}

proof fn lemma_available_concat(a: Seq<KeyStatus>, b: Seq<KeyStatus>, now: u64)
    ensures
        available_keys(a + b, now) == available_keys(a, now) + available_keys(b, now),
    decreases b.len(),
{
    if b.len() == 0 {
        assert(a + b =~= a);
        assert(available_keys(a, now) + available_keys(b, now) =~= available_keys(a, now));
    } else {
        lemma_available_concat(a, b.drop_last(), now);
        assert((a + b).drop_last() =~= a + b.drop_last());
        assert((a + b).last() == b.last());
        if available_at(b.last(), now) {
            assert(available_keys(a, now) + available_keys(b, now)
                =~= (available_keys(a, now) + available_keys(b.drop_last(), now)).push(b.last()));
        }
    }
}

proof fn lemma_none_available(q: Seq<KeyStatus>, now: u64)
    requires
        forall|j: int| 0 <= j < q.len() ==> !available_at(#[trigger] q[j], now),
    ensures
        available_keys(q, now) == Seq::<KeyStatus>::empty(),
    decreases q.len(),
{
    if q.len() > 0 {
        assert(!available_at(q[q.len() - 1], now));
        lemma_none_available(q.drop_last(), now);
    }
}

proof fn lemma_available_members(q: Seq<KeyStatus>, now: u64)
    requires
        unique_secrets(q),
    ensures
        unique_secrets(available_keys(q, now)),
        forall|i: int| 0 <= i < available_keys(q, now).len() ==> q.contains(#[trigger] available_keys(q, now)[i]),
    decreases q.len(),
{
    if q.len() > 0 {
        let d = q.drop_last();
        assert(unique_secrets(d));
        lemma_available_members(d, now);
        let r = available_keys(d, now);
        assert forall|i: int| 0 <= i < r.len() implies q.contains(#[trigger] r[i]) by {
            let j = choose|j: int| 0 <= j < d.len() && d[j] == r[i];
            assert(q[j] == r[i]);
        }
        if available_at(q.last(), now) {
            let a = available_keys(q, now);
            assert forall|x: int, y: int| 0 <= x < y < a.len() implies a[x].key@ != a[y].key@ by {
                if y == a.len() - 1 {
                    let j = choose|j: int| 0 <= j < d.len() && d[j] == r[x];
                    assert(q[j] == a[x]);
                    assert(q[q.len() - 1] == a[y]);
                } else {
                    assert(a[x] == r[x] && a[y] == r[y]);
                }
            }
            assert forall|i: int| 0 <= i < a.len() implies q.contains(#[trigger] a[i]) by {
                if i == a.len() - 1 {
                    assert(q[q.len() - 1] == a[i]);
                } else {
                    assert(a[i] == r[i]);
                }
            }
        }
    }
}

/// A lease takes the first available key and moves it behind all others.
proof fn lemma_lease_rotates_available(q: Seq<KeyStatus>, now: u64)
    requires
        available_keys(q, now).len() > 0,
    ensures
        lease_index(q, now) < q.len(),
        q[lease_index(q, now)] == available_keys(q, now)[0],
        available_keys(after_lease(q, now), now)
            == available_keys(q, now).drop_first().push(q[lease_index(q, now)]),
{
    lemma_lease_index(q, now);
    let p = lease_index(q, now);
    if p == q.len() {
        lemma_none_available(q, now);
    }
    let head = q.subrange(0, p);
    let tail = q.subrange(p + 1, q.len() as int);
    assert forall|j: int| 0 <= j < head.len() implies !available_at(#[trigger] head[j], now) by {
        assert(head[j] == q[j]);
    }
    lemma_none_available(head, now);
    assert(q =~= head + seq![q[p]] + tail);
    lemma_available_concat(head + seq![q[p]], tail, now);
    lemma_available_concat(head, seq![q[p]], now);
    assert(p < q.len());
    assert(available_at(q[p], now));
    let single = seq![q[p]];
    assert(single.drop_last() =~= Seq::<KeyStatus>::empty());
    assert(available_keys(single.drop_last(), now) == Seq::<KeyStatus>::empty());
    assert(single.last() == q[p]);
    assert(available_keys(single, now) =~= Seq::<KeyStatus>::empty().push(q[p]));
    assert(available_keys(single, now) =~= seq![q[p]]);
    let avail = available_keys(q, now);
    assert(avail =~= seq![q[p]] + available_keys(tail, now));
    let after = after_lease(q, now);
    assert(after =~= head + tail + seq![q[p]]);
    lemma_available_concat(head + tail, seq![q[p]], now);
    lemma_available_concat(head, tail, now);
    assert(available_keys(after, now) =~= available_keys(tail, now).push(q[p]));
    assert(avail.drop_first() =~= available_keys(tail, now));
}

proof fn lemma_lease_run(q: Seq<KeyStatus>, now: u64, t: nat)
    requires
        t <= available_keys(q, now).len(),
    ensures
        ({
            let a = available_keys(q, now);
            let (cur, out) = lease_run(q, now, t);
            &&& out == a.subrange(0, t as int)
            &&& available_keys(cur, now) == a.subrange(t as int, a.len() as int) + a.subrange(0, t as int)
        }),
    decreases t,
{
    let a = available_keys(q, now);
    if t == 0 {
        assert(a.subrange(0, 0) =~= Seq::<KeyStatus>::empty());
        assert(a.subrange(0, a.len() as int) + a.subrange(0, 0) =~= a);
    } else {
        let s = (t - 1) as nat;
        lemma_lease_run(q, now, s);
        let (cur, out) = lease_run(q, now, s);
        let rot = a.subrange(s as int, a.len() as int) + a.subrange(0, s as int);
        assert(rot[0] == a[s as int]);
        lemma_lease_rotates_available(cur, now);
        assert(out.push(cur[lease_index(cur, now)]) =~= a.subrange(0, t as int));
        assert(rot.drop_first().push(a[s as int]) =~= a.subrange(t as int, a.len() as int) + a.subrange(0, t as int));
    }
}

/// Round-robin fairness: `t` leases in a row at the same time, with `t` at
/// most the number of available keys, hand out the first `t` available keys
/// in queue order, all different. So no key is handed out twice before every
/// other available key has been handed out once.
pub proof fn law_lease_round_robin(q: Seq<KeyStatus>, now: u64, t: nat)
    requires
        unique_secrets(q),
        t <= available_keys(q, now).len(),
    ensures
        lease_run(q, now, t).1 == available_keys(q, now).subrange(0, t as int),
        unique_secrets(lease_run(q, now, t).1),
{
    lemma_lease_run(q, now, t);
    lemma_available_members(q, now);
    let a = available_keys(q, now);
    let out = lease_run(q, now, t).1;
    assert forall|x: int, y: int| 0 <= x < y < out.len() implies out[x].key@ != out[y].key@ by {
        assert(out[x] == a[x] && out[y] == a[y]);
    }
}

} // verus!
