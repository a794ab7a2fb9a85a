//! The daemon's decisions. The daemon polls the clipboard's change token
//! (selection TIMESTAMP and owner window); this module decides, tick by
//! tick, when to read the clipboard and when to accept a token as seen, and
//! what a SET request is answered. Reading the clipboard, the database and
//! the socket is the caller's part.
use vstd::prelude::*;
use crate::text::{chars_of, string_of, append_chars};

verus! {

/// Owners that never answer TIMESTAMP (xclip, some terminals) keep the same
/// change token across copies. Rescan this often so their copies still land.
pub const FULL_CHECK_EVERY: u64 = 5;

/// Catch-all rescan for the rarer owners that reassert the selection with an
/// *unchanged* TIMESTAMP: the token check alone would never notice those.
pub const SAFETY_RESCAN_EVERY: u64 = 30;

/// A slow owner (Java apps, large INCR payloads) can answer the first request
/// with nothing. Retry this many ticks before accepting that it is empty, so a
/// slow read is not silently dropped.
pub const READ_RETRIES: u32 = 6;

/// Poll interval when none is given, in milliseconds.
pub const DEFAULT_INTERVAL_MS: u64 = 400;

/// What tells whether the clipboard changed: the selection's TIMESTAMP and
/// the window owning it.
pub struct Token {
    pub signature: Option<Vec<u8>>,
    pub owner: Option<u32>,
}

/// A token as plain values.
pub type TokenView = (Option<Seq<u8>>, Option<u32>);

impl View for Token {
    type V = TokenView;

    open spec fn view(&self) -> TokenView {
        (
            match self.signature {
                Some(v) => Some(v@),
                None => None,
            },
            self.owner,
        )
    }
}

/// The token of an empty, unowned clipboard.
pub open spec fn no_token() -> TokenView {
    (None, None)
}

fn bytes_eq(a: &Vec<u8>, b: &Vec<u8>) -> (r: bool)
    ensures
        r == (a@ == b@),
{
    if a.len() != b.len() {
        return false;
    }
    let mut i: usize = 0;
    while i < a.len()
        invariant
            i <= a@.len() == b@.len(),
            forall|k: int| 0 <= k < i ==> a@[k] == b@[k],
        decreases a@.len() - i,
    {
        if a[i] != b[i] {
            return false;
        }
        i = i + 1;
    }
    assert(a@ =~= b@);
    true
}

impl Token {
    /// The token of an empty, unowned clipboard.
    pub fn none() -> (t: Token)
        ensures
            t@ == no_token(),
    {
        Token { signature: None, owner: None }
    }

    /// Whether two tokens are equal.
    pub fn same(&self, other: &Token) -> (r: bool)
        ensures
            r == (self@ == other@),
    {
        let sig = match (&self.signature, &other.signature) {
            (Some(a), Some(b)) => bytes_eq(a, b),
            (None, None) => true,
            _ => false,
        };
        sig && self.owner == other.owner
    }
}

/// What to do on a poll tick.
pub enum Step {
    /// Nobody owns the clipboard: nothing to do.
    Skip,
    /// The token changed: read the clipboard and report whether it held content.
    Capture,
    /// Token unchanged, but rescan anyway (duplicates only bump the entry).
    Rescan,
    /// Nothing to do.
    Idle,
}

/// The poller's state: the last token accepted as seen, the tick counter,
/// and how many reads of the current change came back empty.
pub struct Poller {
    last_token: Token,
    tick: u64,
    miss: u32,
}

/// The decision of a tick, from the state and the token just read.
pub open spec fn step_spec(last: TokenView, tick: u64, token: TokenView) -> Step {
    if token.1 is None {
        Step::Skip
    } else if token != last {
        Step::Capture
    } else if (last.0 is None && tick % FULL_CHECK_EVERY == 0) || tick % SAFETY_RESCAN_EVERY == 0 {
        Step::Rescan
    } else {
        Step::Idle
    }
}

impl Poller {
    pub closed spec fn last_view(&self) -> TokenView {
        self.last_token@
    }

    pub closed spec fn tick_view(&self) -> u64 {
        self.tick
    }

    pub closed spec fn miss_view(&self) -> u32 {
        self.miss
    }

    /// The state's invariant: fewer empty reads than the retry budget.
    pub open spec fn wf(&self) -> bool {
        self.miss_view() < READ_RETRIES
    }

    /// A poller that has seen nothing yet.
    pub fn new() -> (p: Poller)
        ensures
            p.wf(),
            p.last_view() == no_token(),
            p.tick_view() == 0,
            p.miss_view() == 0,
    {
        Poller { last_token: Token::none(), tick: 0, miss: 0 }
    }

    /// The tick counter.
    pub fn tick(&self) -> (t: u64)
        ensures
            t == self.tick_view(),
    {
        self.tick
    }

    /// Counts one poll tick and says whether to look at the clipboard: not
    /// while recording is paused, so a paused tick reads and records nothing
    /// and leaves the rest of the state as it was.
    pub fn begin_tick(&mut self, paused: bool) -> (poll: bool)
        requires
            old(self).tick_view() < u64::MAX,
        ensures
            poll == !paused,
            final(self).tick_view() == old(self).tick_view() + 1,
            final(self).last_view() == old(self).last_view(),
            final(self).miss_view() == old(self).miss_view(),
    {
        self.tick = self.tick + 1;
        !paused
    }

    /// What to do with the token just read.
    pub fn step(&self, token: &Token) -> (s: Step)
        ensures
            s == step_spec(self.last_view(), self.tick_view(), token@),
    {
        if token.owner.is_none() {
            Step::Skip
        } else if !token.same(&self.last_token) {
            Step::Capture
        } else if (self.last_token.signature.is_none() && self.tick % FULL_CHECK_EVERY == 0)
            || self.tick % SAFETY_RESCAN_EVERY == 0 {
            Step::Rescan
        } else {
            Step::Idle
        }
    }

    /// Records the outcome of a capture for a changed token. The token is
    /// remembered once content was actually read, or after `READ_RETRIES`
    /// empty reads in a row (the owner is genuinely empty); until then the
    /// change is retried on the next ticks.
    pub fn record_capture(&mut self, token: Token, captured: bool)
        requires
            old(self).wf(),
        ensures
            final(self).wf(),
            final(self).tick_view() == old(self).tick_view(),
            captured ==> final(self).last_view() == token@ && final(self).miss_view() == 0,
            !captured && old(self).miss_view() + 1 >= READ_RETRIES ==> final(self).last_view()
                == token@ && final(self).miss_view() == 0,
            !captured && old(self).miss_view() + 1 < READ_RETRIES ==> final(self).last_view()
                == old(self).last_view() && final(self).miss_view() == old(self).miss_view() + 1,
    {
        if captured {
            self.last_token = token;
            self.miss = 0;
        } else {
            self.miss = self.miss + 1;
            if self.miss >= READ_RETRIES {
                self.last_token = token;
                self.miss = 0;
            }
        }
    }

    /// After the daemon put an entry on the clipboard: forget the token so
    /// the next pass reads the new selection back.
    pub fn forget_token(&mut self)
        ensures
            final(self).last_view() == no_token(),
            final(self).tick_view() == old(self).tick_view(),
            final(self).miss_view() == old(self).miss_view(),
    {
        self.last_token = Token::none();
    }
}

/// The state after recording an empty read of `token`, as plain values.
pub open spec fn after_empty_read(last: TokenView, miss: nat, token: TokenView) -> (TokenView, nat) {
    if miss + 1 >= READ_RETRIES {
        (token, 0)
    } else {
        (last, miss + 1)
    }
}

/// The state after `k` empty reads of `token` in a row.
pub open spec fn after_empty_reads(last: TokenView, miss: nat, token: TokenView, k: nat) -> (
    TokenView,
    nat,
)
    decreases k,
{
    if k == 0 {
        (last, miss)
    } else {
        let (l, m) = after_empty_reads(last, miss, token, (k - 1) as nat);
        after_empty_read(l, m, token)
    }
}

/// A changed token whose reads keep coming back empty is accepted on the
/// empty read that uses up the retry budget, and not before, whatever number
/// of empty reads `miss` had already been counted.
pub proof fn lemma_empty_reads_retried(last: TokenView, miss: nat, token: TokenView, k: nat)
    requires
        miss + k <= READ_RETRIES,
    ensures
        miss + k < READ_RETRIES ==> after_empty_reads(last, miss, token, k) == (last, miss + k),
        miss + k == READ_RETRIES && k > 0 ==> after_empty_reads(last, miss, token, k) == (token, 0nat),
    decreases k,
{
    if k > 0 {
        lemma_empty_reads_retried(last, miss, token, (k - 1) as nat);
    }
}

/// How a SET request ended.
pub enum SetOutcome {
    /// Older than the picker's deadline: dropped.
    Stale,
    /// No entry with this id.
    Missing(i64),
    /// Looking it up or putting it on the clipboard failed with this message.
    Failed(String),
    /// The entry is on the clipboard.
    Done,
}

/// Whether a request asked `elapsed_nanos` ago is past the picker's deadline:
/// the picker has given up on it and fallen back to xclip, so applying it now
/// would overwrite what the user copied since.
pub fn is_stale(elapsed_nanos: u128) -> (b: bool)
    ensures
        b == (elapsed_nanos > crate::ipc::REQUEST_DEADLINE_NANOS),
{
    elapsed_nanos > crate::ipc::REQUEST_DEADLINE_NANOS
}

/// Whether the daemon reads the clipboard once when it starts: not while
/// recording is paused, so a paused daemon records nothing, from its first
/// tick or before it.
pub fn capture_on_start(paused: bool) -> (capture: bool)
    ensures
        capture == !paused,
{
    !paused
}

/// How a SET for entry `id` goes on once the entry was looked up: `None`
/// when it was found and goes on the clipboard next, else how it ended (no
/// such entry, or the lookup's error).
pub fn after_lookup(id: i64, found: Result<bool, String>) -> (r: Option<SetOutcome>)
    ensures
        found matches Ok(true) ==> r is None,
        found matches Ok(false) ==> r matches Some(SetOutcome::Missing(m)) && m == id,
        found matches Err(e) ==> r matches Some(SetOutcome::Failed(f)) && f@ == e@,
{
    match found {
        Ok(true) => None,
        Ok(false) => Some(SetOutcome::Missing(id)),
        Err(e) => Some(SetOutcome::Failed(e)),
    }
}

/// How a SET ends once the entry was put on the clipboard (or not). On
/// success the daemon owns the selection, so the poller forgets its token
/// and the next pass reads the new content back; on failure nothing changes.
pub fn after_put(put: Result<(), String>, poller: &mut Poller) -> (r: SetOutcome)
    ensures
        put is Ok ==> r is Done && final(poller).last_view() == no_token(),
        put matches Err(e) ==> r matches SetOutcome::Failed(f) && f@ == e@ && final(poller).last_view()
            == old(poller).last_view(),
        final(poller).tick_view() == old(poller).tick_view(),
        final(poller).miss_view() == old(poller).miss_view(),
{
    match put {
        Ok(()) => {
            poller.forget_token();
            SetOutcome::Done
        },
        Err(e) => SetOutcome::Failed(e),
    }
}

/// The reply line for a SET outcome.
pub open spec fn set_reply_spec(outcome: SetOutcome) -> Seq<char> {
    match outcome {
        SetOutcome::Stale => "ERR stale request, dropped"@,
        SetOutcome::Missing(id) => "ERR no entry with id="@ + crate::num::signed_decimal(id as int),
        SetOutcome::Failed(e) => "ERR "@ + e@,
        SetOutcome::Done => "OK"@,
    }
}

pub fn set_reply(outcome: SetOutcome) -> (r: String)
    ensures
        r@ == set_reply_spec(outcome),
{
    match outcome {
        SetOutcome::Stale => string_of(&chars_of("ERR stale request, dropped")),
        SetOutcome::Missing(id) => {
            let mut out = chars_of("ERR no entry with id=");
            append_chars(&mut out, &crate::num::i64_chars(id));
            string_of(&out)
        },
        SetOutcome::Failed(e) => {
            let mut out = chars_of("ERR ");
            append_chars(&mut out, &chars_of(e.as_str()));
            string_of(&out)
        },
        SetOutcome::Done => string_of(&chars_of("OK")),
    }
}

} // verus!
