//! Keyboard-state bookkeeping over polled snapshots.
//!
//! The engine never polls the platform itself: the surrounding application
//! hands it each fresh 256-byte key-state snapshot (and, for the
//! asynchronous check, the polled state of a single key), and the engine
//! keeps the previous snapshot to tell a fresh press from a held key.

use vstd::prelude::*;

verus! {

/// Number of virtual-key slots in a key-state snapshot.
pub const KEY_COUNT: usize = 256;

/// Whether a snapshot reports the key as held down (high bit of its state
/// byte).
pub open spec fn spec_key_down(keys: Seq<u8>, key: u16) -> bool {
    keys[key as int] & 0x80 != 0
}

/// Whether a snapshot reports the key as toggled (low bit of its state
/// byte).
pub open spec fn spec_key_toggled(keys: Seq<u8>, key: u16) -> bool {
    keys[key as int] & 1 != 0
}

/// Key-state bookkeeping: the latest polled snapshot, the one before it, and
/// the per-key record of the last asynchronous poll.
#[derive(Debug)]
pub struct Keyboard {
    /// The snapshot before the latest one.
    pub old_keys: Vec<u8>,
    /// The latest snapshot.
    pub new_keys: Vec<u8>,
    /// Per key, whether the last asynchronous poll reported it down.
    pub async_keys: Vec<bool>,
}

impl Keyboard {
    /// Each table has one slot per virtual key.
    pub open spec fn wf(&self) -> bool {
        &&& self.old_keys@.len() == KEY_COUNT
        &&& self.new_keys@.len() == KEY_COUNT
        &&& self.async_keys@.len() == KEY_COUNT
    }

    /// A keyboard with no key down, toggled, or tracked.
    pub fn new() -> (kb: Self)
        ensures
            kb.wf(),
            forall|i: int| 0 <= i < KEY_COUNT ==> kb.old_keys@[i] == 0,
            forall|i: int| 0 <= i < KEY_COUNT ==> kb.new_keys@[i] == 0,
            forall|i: int| 0 <= i < KEY_COUNT ==> !kb.async_keys@[i],
    {
        let mut old_keys: Vec<u8> = Vec::new();
        let mut new_keys: Vec<u8> = Vec::new();
        let mut async_keys: Vec<bool> = Vec::new();
        let mut i: usize = 0;
        while i < KEY_COUNT
            invariant
                i <= KEY_COUNT,
                old_keys@.len() == i,
                new_keys@.len() == i,
                async_keys@.len() == i,
                forall|j: int| 0 <= j < i ==> old_keys@[j] == 0,
                forall|j: int| 0 <= j < i ==> new_keys@[j] == 0,
                forall|j: int| 0 <= j < i ==> !async_keys@[j],
            decreases KEY_COUNT - i,
        {
            old_keys.push(0);
            new_keys.push(0);
            async_keys.push(false);
            i = i + 1;
        }
        Keyboard { old_keys, new_keys, async_keys }
    }

    /// Take in the outcome of one keyboard-state poll.
    ///
    /// The latest snapshot always becomes the previous one. A successful
    /// poll (`Some`) installs the polled bytes as the latest snapshot and
    /// returns true; a failed poll (`None`) leaves the latest snapshot as it
    /// was and returns false, and the failure is the caller's to report.
    pub fn update(&mut self, polled: Option<&Vec<u8>>) -> (ok: bool)
        requires
            old(self).wf(),
            polled matches Some(v) ==> v@.len() == KEY_COUNT,
        ensures
            final(self).wf(),
            final(self).old_keys@ == old(self).new_keys@,
            final(self).async_keys@ == old(self).async_keys@,
            match polled {
                Some(v) => ok && final(self).new_keys@ == v@,
                None => !ok && final(self).new_keys@ == old(self).new_keys@,
            },
    {
        match polled {
            Some(v) => {
                let mut fresh = v.clone();
                core::mem::swap(&mut self.new_keys, &mut fresh);
                self.old_keys = fresh;
                true
            },
            None => {
                self.old_keys = self.new_keys.clone();
                false
            },
        }
    }

    /// Whether the latest snapshot reports `key` as down.
    pub fn is_key_down(&self, key: u16) -> (down: bool)
        requires
            self.wf(),
            key < KEY_COUNT,
        ensures
            down == spec_key_down(self.new_keys@, key),
    {
        self.new_keys[key as usize] & 0x80 != 0
    }

    /// Whether `key` went down between the two most recent snapshots: down
    /// in the latest, not down in the one before.
    pub fn is_key_down_once(&self, key: u16) -> (fresh: bool)
        requires
            self.wf(),
            key < KEY_COUNT,
        ensures
            fresh == (spec_key_down(self.new_keys@, key) && !spec_key_down(self.old_keys@, key)),
    {
        self.is_key_down(key) && self.old_keys[key as usize] & 0x80 == 0
    }

    /// Whether any of the given keys went down between the two most recent
    /// snapshots.
    pub fn is_any_key_down_once(&self, keys: &Vec<u16>) -> (fresh: bool)
        requires
            self.wf(),
            forall|k: int| 0 <= k < keys@.len() ==> keys@[k] < KEY_COUNT,
        ensures
            fresh == exists|k: int|
                0 <= k < keys@.len() && spec_key_down(self.new_keys@, #[trigger] keys@[k])
                    && !spec_key_down(self.old_keys@, keys@[k]),
    {
        let n = keys.len();
        let mut k: usize = 0;
        while k < n
            invariant
                k <= n == keys@.len(),
                self.wf(),
                forall|j: int| 0 <= j < keys@.len() ==> keys@[j] < KEY_COUNT,
                forall|j: int|
                    0 <= j < k ==> !(spec_key_down(self.new_keys@, #[trigger] keys@[j])
                        && !spec_key_down(self.old_keys@, keys@[j])),
            decreases n - k,
        {
            if self.is_key_down_once(keys[k]) {
                return true;
            }
            k = k + 1;
        }
        false
    }

    /// Whether the latest snapshot reports `key` as toggled.
    pub fn is_key_toggled(&self, key: u16) -> (toggled: bool)
        requires
            self.wf(),
            key < KEY_COUNT,
        ensures
            toggled == spec_key_toggled(self.new_keys@, key),
    {
        self.new_keys[key as usize] & 1 != 0
    }

    /// Take in one asynchronous poll of a single key, and say whether this
    /// is a fresh press: down now, and not down at the previous asynchronous
    /// poll of that key.
    pub fn track_key_down_async_once(&mut self, key: u16, is_down: bool) -> (fresh: bool)
        requires
            old(self).wf(),
            key < KEY_COUNT,
        ensures
            final(self).wf(),
            fresh == (is_down && !old(self).async_keys@[key as int]),
            final(self).async_keys@ == old(self).async_keys@.update(key as int, is_down),
            final(self).old_keys@ == old(self).old_keys@,
            final(self).new_keys@ == old(self).new_keys@,
    {
        let fresh = is_down && !self.async_keys[key as usize];
        self.async_keys[key as usize] = is_down;
        fresh
    }
}

} // verus!
