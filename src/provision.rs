use vstd::prelude::*;
use crate::store::BucketSpec;

verus! {

/// Attempts at creating the bucket before the engine gives up.
pub const MAX_ATTEMPTS: u32 = 5;

/// Pause between two attempts, in milliseconds.
pub const RETRY_DELAY_MS: u64 = 1000;

/// What to do after an attempt at creating the bucket.
#[derive(Debug, Clone, Copy, PartialEq, Eq)]
pub enum ProvisionAction {
    /// The bucket exists; event traffic may start.
    Ready,
    /// Wait this many milliseconds, reconnect to the store and try again.
    RetryAfter(u64),
    /// The bound is exhausted: the engine cannot run.
    Abort,
}

/// The bounded retry protocol that makes sure the destination bucket exists.
#[derive(Debug)]
pub struct Provisioner {
    attempts_left: u32,
    settled: bool,
}

impl Provisioner {
    /// Attempts still allowed.
    pub closed spec fn remaining(&self) -> int {
        self.attempts_left as int
    }

    /// Whether the protocol has reached `Ready` or `Abort`.
    pub closed spec fn is_settled(&self) -> bool {
        self.settled
    }

    pub fn new() -> (p: Provisioner)
        ensures
            p.remaining() == MAX_ATTEMPTS,
            !p.is_settled(),
    {
        Provisioner { attempts_left: MAX_ATTEMPTS, settled: false }
    }

    /// Whether another attempt is due.
    pub fn may_attempt(&self) -> (r: bool)
        ensures
            r == (!self.is_settled() && self.remaining() > 0),
    {
        !self.settled && self.attempts_left > 0
    }

    /// Records the outcome of one attempt. Success settles on `Ready`; a
    /// failure uses up one attempt and asks for a retry after the fixed
    /// delay, or settles on `Abort` once no attempt is left.
    pub fn on_attempt(&mut self, succeeded: bool) -> (a: ProvisionAction)
        requires
            !old(self).is_settled(),
            old(self).remaining() > 0,
        ensures
            final(self).remaining() == old(self).remaining() - 1,
            succeeded ==> a == ProvisionAction::Ready && final(self).is_settled(),
            !succeeded && final(self).remaining() > 0 ==> a == ProvisionAction::RetryAfter(RETRY_DELAY_MS)
                && !final(self).is_settled(),
            !succeeded && final(self).remaining() == 0 ==> a == ProvisionAction::Abort && final(self).is_settled(),
    {
        self.attempts_left = self.attempts_left - 1;
        if succeeded {
            self.settled = true;
            ProvisionAction::Ready
        } else if self.attempts_left > 0 {
            ProvisionAction::RetryAfter(RETRY_DELAY_MS)
        } else {
            self.settled = true;
            ProvisionAction::Abort
        }
    }
}

/// The outcome of the whole protocol when the attempts go as `outcomes`
/// says, in order: `Ready` at the first success within the bound, `Abort`
/// when every attempt within the bound fails.
pub open spec fn provision_result(outcomes: Seq<bool>, left: int) -> ProvisionAction
    decreases outcomes.len(),
{
    if left <= 0 || outcomes.len() == 0 {
        ProvisionAction::Abort
    } else if outcomes[0] {
        ProvisionAction::Ready
    } else {
        provision_result(outcomes.drop_first(), left - 1)
    }
}

/// Runs the protocol over a known sequence of attempt outcomes, a missing
/// outcome counting as a failure; only the first `MAX_ATTEMPTS` outcomes are
/// ever consulted.
pub fn run_provisioning(outcomes: &Vec<bool>) -> (r: ProvisionAction)
    ensures
        r == provision_result(outcomes@, MAX_ATTEMPTS as int),
{
    let mut p = Provisioner::new();
    let mut i: usize = 0;
    assert(outcomes@.subrange(0, outcomes.len() as int) =~= outcomes@);
    while i < outcomes.len() && p.may_attempt()
        invariant
            0 <= i <= outcomes.len(),
            !p.is_settled(),
            p.remaining() == MAX_ATTEMPTS - i,
            provision_result(outcomes@.subrange(i as int, outcomes.len() as int), p.remaining())
                == provision_result(outcomes@, MAX_ATTEMPTS as int),
        decreases outcomes.len() - i,
    {
        let ghost rest = outcomes@.subrange(i as int, outcomes.len() as int);
        assert(rest.drop_first() =~= outcomes@.subrange(i + 1, outcomes.len() as int));
        let a = p.on_attempt(outcomes[i]);
        i = i + 1;
        match a {
            ProvisionAction::RetryAfter(_) => {},
            _ => {
                return a;
            },
        }
    }
    ProvisionAction::Abort
}

impl BucketSpec {
    /// The bucket the watcher reports into on the host `hostname`.
    pub fn watcher(hostname: &str) -> (b: BucketSpec)
        ensures
            b.id@ == "aw-watcher-lastfm"@,
            b.kind@ == "currently-playing"@,
            b.client@ == "aw-watcher-lastfm-rust"@,
            b.hostname@ == hostname@,
    {
        BucketSpec {
            id: "aw-watcher-lastfm".to_owned(),
            kind: "currently-playing".to_owned(),
            client: "aw-watcher-lastfm-rust".to_owned(),
            hostname: hostname.to_owned(),
        }
    }
}

} // verus!
