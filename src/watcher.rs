use vstd::prelude::*;

use crate::events::{config_changed_tag, UiEvent};

verus! {

/// Seconds to wait between two checks of a watched file.
pub const POLL_INTERVAL_SECS: u64 = 1;

/// A file's modification time as plain values: a distance from the Unix
/// epoch in whole seconds and nanoseconds, and on which side of it.
#[derive(Clone, Copy, Debug, PartialEq, Eq, Structural)]
pub struct Stamp {
    pub before_epoch: bool,
    pub secs: u64,
    pub nanos: u32,
}

/// What one check does: the modification time now remembered, and whether
/// a change is announced. A check that could not read the time (`None`)
/// changes nothing; one that reads a time other than the remembered one
/// (or the first time at all) remembers it and announces the change.
pub open spec fn check(last_seen: Option<Stamp>, observed: Option<Stamp>) -> (Option<Stamp>, bool) {
    match observed {
        None => (last_seen, false),
        Some(t) => (Some(t), last_seen != Some(t)),
    }
}

/// Checks in turn: the time remembered after the last one, and how many of
/// them announced a change.
pub open spec fn check_all(last_seen: Option<Stamp>, observed: Seq<Option<Stamp>>) -> (
    Option<Stamp>,
    nat,
)
    decreases observed.len(),
{
    if observed.len() == 0 {
        (last_seen, 0)
    } else {
        let before = check_all(last_seen, observed.drop_last());
        let now = check(before.0, observed.last());
        (now.0, before.1 + if now.1 {
            1nat
        } else {
            0nat
        })
    }
}

/// The state of one watch: the watched path and the modification time seen
/// at the last successful check (none while the file has not been seen).
#[derive(Debug)]
pub struct WatchState {
    pub path: String,
    pub last_seen: Option<Stamp>,
}

fn same_stamp(a: Option<Stamp>, b: Stamp) -> (r: bool)
    ensures
        r <==> a == Some(b),
{
    match a {
        Some(x) => x == b,
        None => false,
    }
}

impl WatchState {
    /// Starts a watch of `path`, whose modification time was `observed`
    /// when the watch began (`None` if it could not be read).
    pub fn start(path: String, observed: Option<Stamp>) -> (r: WatchState)
        ensures
            r.path@ == path@,
            r.last_seen == observed,
    {
        WatchState { path, last_seen: observed }
    }

    /// One periodic check, given the modification time read now. Returns
    /// the change event to emit, which carries the watched path.
    pub fn tick(&mut self, observed: Option<Stamp>) -> (r: Option<UiEvent>)
        ensures
            final(self).path@ == old(self).path@,
            final(self).last_seen == check(old(self).last_seen, observed).0,
            r is Some <==> check(old(self).last_seen, observed).1,
            r matches Some(e) ==> e.name@ == config_changed_tag() && e.payload@ == old(self).path@,
    {
        match observed {
            None => None,
            Some(t) => {
                if same_stamp(self.last_seen, t) {
                    None
                } else {
                    self.last_seen = Some(t);
                    Some(
                        UiEvent {
                            name: String::from_str("config-file-changed"),
                            payload: self.path.clone(),
                        },
                    )
                }
            },
        }
    }
}

/// Once a watched file shows a new modification time, the checks that see
/// that time again, or cannot read it, announce exactly one change between
/// them.
pub proof fn lemma_one_event_per_change(
    last_seen: Option<Stamp>,
    t: Stamp,
    observed: Seq<Option<Stamp>>,
)
    requires
        last_seen != Some(t),
        observed.len() > 0,
        observed[0] == Some(t),
        forall|i: int|
            0 <= i < observed.len() ==> #[trigger] observed[i] is None || observed[i] == Some(t),
    ensures
        check_all(last_seen, observed) == (Some(t), 1nat),
    decreases observed.len(),
{
    if observed.len() == 1 {
        assert(observed.drop_last() =~= Seq::<Option<Stamp>>::empty());
        assert(check_all(last_seen, observed.drop_last()) == (last_seen, 0nat));
        assert(observed.last() == observed[0]);
    } else {
        let rest = observed.drop_last();
        assert(rest[0] == observed[0]);
        assert forall|i: int|
            0 <= i < rest.len() implies #[trigger] rest[i] is None || rest[i] == Some(t) by {
            assert(rest[i] == observed[i]);
        }
        lemma_one_event_per_change(last_seen, t, rest);
        assert(observed.last() == observed[observed.len() - 1]);
    }
}

/// Checks that see the remembered modification time again, or cannot read
/// it, announce nothing.
pub proof fn lemma_unchanged_file_is_quiet(t: Stamp, observed: Seq<Option<Stamp>>)
    requires
        forall|i: int|
            0 <= i < observed.len() ==> #[trigger] observed[i] is None || observed[i] == Some(t),
    ensures
        check_all(Some(t), observed) == (Some(t), 0nat),
    decreases observed.len(),
{
    if observed.len() > 0 {
        let rest = observed.drop_last();
        assert forall|i: int|
            0 <= i < rest.len() implies #[trigger] rest[i] is None || rest[i] == Some(t) by {
            assert(rest[i] == observed[i]);
        }
        lemma_unchanged_file_is_quiet(t, rest);
        assert(observed.last() == observed[observed.len() - 1]);
    }
}

} // verus!
