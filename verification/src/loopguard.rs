//! Which clipboard events to handle: not blank ones, not the same text twice in
//! a row, and not the echo of what was written to the clipboard here.

use crate::text;
use std::collections::hash_map::DefaultHasher;
use std::collections::VecDeque;
use std::hash::Hasher;
use vstd::prelude::*;
use vstd::std_specs::hash::DefaultHasherAdditionalSpecFns;
use vstd::utf8::encode_utf8;

verus! {

/// Remembers the text handled last and the texts written to the clipboard, as
/// hashes with the time of the event in nanoseconds.
pub struct LoopGuard {
    window: u128,
    last_seen: Option<(u64, u128)>,
    self_writes: VecDeque<(u64, u128)>,
}

/// What a [`LoopGuard`] remembers.
#[verifier::ext_equal]
pub struct GuardModel {
    /// How long a text is remembered.
    pub window: u128,
    /// The text handled last.
    pub last_seen: Option<(u64, u128)>,
    /// The texts written to the clipboard, oldest first.
    pub self_writes: Seq<(u64, u128)>,
}

impl View for LoopGuard {
    type V = GuardModel;

    closed spec fn view(&self) -> GuardModel {
        GuardModel {
            window: self.window,
            last_seen: self.last_seen,
            self_writes: self.self_writes@,
        }
    }
}

/// What a text is remembered by.
pub open spec fn hash_of(s: Seq<char>) -> u64 {
    DefaultHasher::spec_finish(seq![encode_utf8(s)])
}

/// Whether `e` is the hash `h` at a time within the window before `now`. A time
/// after `now` counts as `now`.
pub open spec fn remembers(e: (u64, u128), h: u64, now: u128, window: u128) -> bool {
    e.0 == h && (if now > e.1 {
        now - e.1
    } else {
        0
    }) < window
}

/// Whether the guard refuses a text with the hash `h`.
pub open spec fn refuses(g: GuardModel, h: u64, now: u128) -> bool {
    ||| g.last_seen is Some && remembers(g.last_seen->0, h, now, g.window)
    ||| exists|i: int|
        0 <= i < g.self_writes.len() && remembers(#[trigger] g.self_writes[i], h, now, g.window)
}

/// Whether the guard lets a text through.
pub open spec fn accepts(g: GuardModel, s: Seq<char>, now: u128) -> bool {
    text::trim(s).len() > 0 && !refuses(g, hash_of(text::trim(s)), now)
}

/// What the guard remembers after it was asked about a text.
pub open spec fn after_accept(g: GuardModel, s: Seq<char>, now: u128) -> GuardModel {
    if accepts(g, s, now) {
        GuardModel { last_seen: Some((hash_of(text::trim(s)), now)), ..g }
    } else {
        g
    }
}

/// `writes` without those at the front that have left the window.
pub open spec fn unexpired(writes: Seq<(u64, u128)>, now: u128, window: u128) -> Seq<(u64, u128)>
    decreases writes.len(),
{
    if writes.len() > 0 && now >= writes[0].1 && now - writes[0].1 >= window {
        unexpired(writes.skip(1), now, window)
    } else if writes.len() > 0 && now < writes[0].1 && window == 0 {
        unexpired(writes.skip(1), now, window)
    } else {
        writes
    }
}

/// What the guard remembers after a write to the clipboard.
pub open spec fn after_write(g: GuardModel, s: Seq<char>, now: u128) -> GuardModel {
    GuardModel {
        self_writes: unexpired(g.self_writes, now, g.window).push((hash_of(text::trim(s)), now)),
        ..g
    }
}

fn age(at: u128, now: u128) -> (r: u128)
    ensures
        r == (if now > at {
            now - at
        } else {
            0
        }),
{
    if now > at {
        now - at
    } else {
        0
    }
}

impl LoopGuard {
    /// A guard that remembers for `window` nanoseconds and has seen nothing.
    pub fn new(window: u128) -> (r: LoopGuard)
        ensures
            r@ == (GuardModel { window, last_seen: None, self_writes: Seq::empty() }),
    {
        LoopGuard { window, last_seen: None, self_writes: VecDeque::new() }
    }

    fn hash(text: &str) -> (r: u64)
        ensures
            r == hash_of(text@),
    {
        let mut h = DefaultHasher::new();
        h.write(text.as_bytes());
        assert(h@ =~= seq![encode_utf8(text@)]);
        h.finish()
    }

    /// Whether the event is to be handled. Texts are compared without the white
    /// space at their ends.
    pub fn accept(&mut self, text: &str, now: u128) -> (r: bool)
        ensures
            r == accepts(old(self)@, text@, now),
            final(self)@ == after_accept(old(self)@, text@, now),
    {
        let t = text::trimmed(text);
        if text::empty(&t) {
            return false;
        }
        let h = Self::hash(&t);
        match self.last_seen {
            Some((seen, at)) => {
                if seen == h && age(at, now) < self.window {
                    return false;
                }
            },
            None => {},
        }
        let mut i: usize = 0;
        while i < self.self_writes.len()
            invariant
                i <= self.self_writes@.len(),
                *self == *old(self),
                h == hash_of(text::trim(text@)),
                self.last_seen is Some ==> !remembers(self.last_seen->0, h, now, self.window),
                forall|k: int|
                    0 <= k < i ==> !remembers(
                        #[trigger] self.self_writes@[k],
                        h,
                        now,
                        self.window,
                    ),
            ensures
                i == self.self_writes@.len(),
            decreases self.self_writes@.len() - i,
        {
            let (w, at) = self.self_writes[i];
            if w == h && age(at, now) < self.window {
                assert(remembers(self@.self_writes[i as int], h, now, self.window));
                return false;
            }
            i += 1;
        }
        self.last_seen = Some((h, now));
        true
    }

    /// Remembers a text that is about to be written to the clipboard, and
    /// forgets writes that have left the window.
    pub fn register_write(&mut self, text: &str, now: u128)
        ensures
            final(self)@ == after_write(old(self)@, text@, now),
    {
        let h = Self::hash(&text::trimmed(text));
        let ghost all = self.self_writes@;
        while self.self_writes.len() > 0
            invariant
                self.window == old(self).window,
                self.last_seen == old(self).last_seen,
                unexpired(self.self_writes@, now, self.window) == unexpired(all, now, self.window),
            ensures
                self.self_writes@ == unexpired(all, now, self.window),
            decreases self.self_writes@.len(),
        {
            let (_, at) = self.self_writes[0];
            if age(at, now) >= self.window {
                let ghost before = self.self_writes@;
                let _ = self.self_writes.pop_front();
                assert(self.self_writes@ =~= before.skip(1));
            } else {
                break;
            }
        }
        self.self_writes.push_back((h, now));
    }
}

// Laws

/// White space alone is never handled.
pub proof fn law_blank_is_never_accepted(g: GuardModel, s: Seq<char>, now: u128)
    requires
        forall|i: int| 0 <= i < s.len() ==> text::is_white(#[trigger] s[i]),
    ensures
        !accepts(g, s, now),
        after_accept(g, s, now) == g,
{
    text::lemma_trim_empty(s);
}

/// A text that was let through is refused within the window, whatever white
/// space stands at its ends, and the refusal does not prolong the window.
pub proof fn law_same_text_within_window_is_refused(
    g: GuardModel,
    s: Seq<char>,
    again: Seq<char>,
    at: u128,
    now: u128,
)
    requires
        accepts(g, s, at),
        text::trim(again) == text::trim(s),
        now - at < g.window,
        g.window > 0,
    ensures
        !accepts(after_accept(g, s, at), again, now),
        after_accept(after_accept(g, s, at), again, now) == after_accept(g, s, at),
{
}

/// Once the window has passed, a text is let through again, unless it was
/// written to the clipboard meanwhile.
pub proof fn law_same_text_after_window_is_accepted(
    g: GuardModel,
    s: Seq<char>,
    at: u128,
    now: u128,
)
    requires
        accepts(g, s, at),
        now >= at + g.window,
        g.self_writes.len() == 0,
    ensures
        accepts(after_accept(g, s, at), s, now),
{
}

/// A text that was written to the clipboard is refused within the window.
pub proof fn law_own_write_is_refused(
    g: GuardModel,
    s: Seq<char>,
    echo: Seq<char>,
    at: u128,
    now: u128,
)
    requires
        text::trim(echo) == text::trim(s),
        now - at < g.window,
        g.window > 0,
    ensures
        !accepts(after_write(g, s, at), echo, now),
{
    let w = after_write(g, s, at);
    let k = w.self_writes.len() - 1;
    assert(remembers(w.self_writes[k], hash_of(text::trim(echo)), now, w.window));
}

/// A guard that has only seen one write lets the text through again once the
/// window has passed.
pub proof fn law_own_write_expires(window: u128, s: Seq<char>, at: u128, now: u128)
    requires
        text::trim(s).len() > 0,
        now >= at + window,
    ensures
        accepts(
            after_write(
                GuardModel { window, last_seen: None, self_writes: Seq::empty() },
                s,
                at,
            ),
            s,
            now,
        ),
{
}

/// A text that differs, by its hash, from the one handled last and from every
/// remembered write is let through at once.
pub proof fn law_different_text_is_accepted(g: GuardModel, s: Seq<char>, now: u128)
    requires
        text::trim(s).len() > 0,
        g.last_seen is Some ==> (g.last_seen->0).0 != hash_of(text::trim(s)),
        forall|i: int|
            0 <= i < g.self_writes.len() ==> (#[trigger] g.self_writes[i]).0 != hash_of(
                text::trim(s),
            ),
    ensures
        accepts(g, s, now),
{
}

/// Whether the remembered writes stand in the order of their times.
pub open spec fn in_order(writes: Seq<(u64, u128)>) -> bool {
    forall|i: int, j: int|
        0 <= i <= j < writes.len() ==> (#[trigger] writes[i]).1 <= (#[trigger] writes[j]).1
}

proof fn lemma_unexpired(writes: Seq<(u64, u128)>, now: u128, window: u128)
    requires
        in_order(writes),
    ensures
        in_order(unexpired(writes, now, window)),
        unexpired(writes, now, window).len() <= writes.len(),
        forall|i: int|
            0 <= i < unexpired(writes, now, window).len() ==> now - (#[trigger] unexpired(
                writes,
                now,
                window,
            )[i]).1 < window || window == 0,
        forall|i: int|
            0 <= i < unexpired(writes, now, window).len() ==> writes.contains(
                #[trigger] unexpired(writes, now, window)[i],
            ),
    decreases writes.len(),
{
    if writes.len() > 0 {
        let rest = writes.skip(1);
        assert forall|i: int, j: int| 0 <= i <= j < rest.len() implies (#[trigger] rest[i]).1 <= (
        #[trigger] rest[j]).1 by {
            assert(rest[i] == writes[i + 1] && rest[j] == writes[j + 1]);
        }
        lemma_unexpired(rest, now, window);
        let u = unexpired(rest, now, window);
        assert forall|i: int| 0 <= i < u.len() implies writes.contains(#[trigger] u[i]) by {
            let k = rest.index_of(u[i]);
            assert(writes[k + 1] == u[i]);
        }
        if unexpired(writes, now, window) == writes {
            assert forall|i: int| 0 <= i < writes.len() implies now - (#[trigger] writes[i]).1
                < window || window == 0 by {
                assert(writes[0].1 <= writes[i].1);
            }
        }
    }
}

/// Writes that have left the window are forgotten at the next write, so that
/// what is remembered does not grow without bound: right after a write, nothing
/// older than the window is left.
pub proof fn law_expired_writes_are_forgotten(g: GuardModel, s: Seq<char>, now: u128)
    requires
        in_order(g.self_writes),
        g.window > 0,
        forall|i: int| 0 <= i < g.self_writes.len() ==> (#[trigger] g.self_writes[i]).1 <= now,
    ensures
        in_order(after_write(g, s, now).self_writes),
        forall|i: int|
            0 <= i < after_write(g, s, now).self_writes.len() ==> now - (#[trigger] after_write(
                g,
                s,
                now,
            ).self_writes[i]).1 < g.window,
{
    lemma_unexpired(g.self_writes, now, g.window);
    let u = unexpired(g.self_writes, now, g.window);
    let w = after_write(g, s, now).self_writes;
    assert forall|i: int, j: int| 0 <= i <= j < w.len() implies (#[trigger] w[i]).1 <= (
    #[trigger] w[j]).1 by {
        if i < u.len() {
            assert(g.self_writes.contains(u[i]));
            let k = g.self_writes.index_of(u[i]);
            assert(g.self_writes[k].1 <= now);
        }
    }
}

proof fn lemma_unexpired_stays(writes: Seq<(u64, u128)>, e: (u64, u128), now: u128, window: u128)
    requires
        writes.contains(e),
        e.1 <= now,
        now - e.1 < window,
    ensures
        unexpired(writes, now, window).contains(e),
    decreases writes.len(),
{
    let i = writes.index_of(e);
    let rest = writes.skip(1);
    if writes[0] != e {
        assert(rest[i - 1] == e);
        assert(rest.contains(e));
        lemma_unexpired_stays(rest, e, now, window);
    }
}

/// A text that was written to the clipboard is refused for the whole window, also
/// where other texts were written after it.
pub proof fn law_earlier_write_is_refused(
    g: GuardModel,
    s: Seq<char>,
    t: Seq<char>,
    at: u128,
    later: u128,
    now: u128,
)
    requires
        at <= later <= now,
        now - at < g.window,
    ensures
        !accepts(after_write(after_write(g, s, at), t, later), s, now),
{
    let h = hash_of(text::trim(s));
    let e = (h, at);
    let one = after_write(g, s, at);
    assert(one.self_writes.last() == e);
    assert(one.self_writes.contains(e));
    lemma_unexpired_stays(one.self_writes, e, later, g.window);
    let kept = unexpired(one.self_writes, later, g.window);
    let two = after_write(one, t, later);
    let i = kept.index_of(e);
    assert(two.self_writes[i] == e);
    assert(remembers(two.self_writes[i], h, now, two.window));
}

/// The guard remembers the text that it let through last, and only that one: once
/// another text was let through, the first one is let through again.
pub proof fn law_only_the_last_text_counts(
    g: GuardModel,
    s: Seq<char>,
    t: Seq<char>,
    at: u128,
    later: u128,
    now: u128,
)
    requires
        accepts(g, s, at),
        accepts(after_accept(g, s, at), t, later),
        hash_of(text::trim(s)) != hash_of(text::trim(t)),
        g.self_writes.len() == 0,
    ensures
        accepts(after_accept(after_accept(g, s, at), t, later), s, now),
{
}

} // verus!
