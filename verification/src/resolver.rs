//! The single-flight resolver: one entry per distinct checksum, holding a
//! one-shot leadership token and a set-once verdict slot. However many
//! callers ask for one checksum, at most one at a time holds leadership and
//! fetches; a failed leader returns the token so another candidate mirror
//! can take over; a set verdict is final and is handed to every later caller
//! with no further work.
//!
//! The waiting itself (who sleeps, who wakes) is scheduling and lives with
//! the caller; every decision — entry creation, leader election, completion,
//! handoff — is made here and verified.

use vstd::prelude::*;
use vstd::string::StringSliceAdditionalSpecFns;
use crate::classify::{MirrorData, spec_classify, get_mirror_data_from_tlpdb};
use crate::digest::{xz_text_of, xz_decompress_text, spec_digest_ok, digest_matches};
use crate::text_util::str_equal;
use crate::assoc::{assoc_map, keys_unique, lemma_assoc_map_dom, lemma_assoc_map_index, lemma_assoc_map_update, lemma_assoc_map_push};

verus! {

/// One checksum's coordination state: whether the leadership token is free
/// to take, and the broadcast slot, set at most once.
#[derive(Debug, Clone, Copy)]
pub struct EntryState {
    pub token_armed: bool,
    pub value: Option<MirrorData>,
}

impl DeepView for EntryState {
    type V = EntryState;

    open spec fn deep_view(&self) -> EntryState {
        *self
    }
}

/// The checksum-keyed entry table, abstracted as a map.
pub struct TlpdbByHash {
    pub mapping: Vec<(String, EntryState)>,
}

/// What one poll of the entry table answers: the cached verdict, leadership
/// of the fetch, or an instruction to wait for the leader's broadcast.
#[derive(Debug, Clone, Copy, PartialEq, Eq, Structural)]
pub enum PollOutcome {
    Ready(MirrorData),
    Lead,
    Wait,
}

/// The answer a poll for checksum `h` gives in state `m`.
pub open spec fn spec_poll_result(m: Map<Seq<char>, EntryState>, h: Seq<char>) -> PollOutcome {
    if m.contains_key(h) {
        let e = m[h];
        if e.value is Some {
            PollOutcome::Ready(e.value.unwrap())
        } else if e.token_armed {
            PollOutcome::Lead
        } else {
            PollOutcome::Wait
        }
    } else {
        PollOutcome::Lead
    }
}

/// The state after that poll: a fresh entry is created pre-armed and its
/// token is taken at once; an armed token is taken; anything else is
/// untouched.
pub open spec fn spec_poll_state(m: Map<Seq<char>, EntryState>, h: Seq<char>) -> Map<
    Seq<char>,
    EntryState,
> {
    if m.contains_key(h) {
        let e = m[h];
        if e.value is None && e.token_armed {
            m.insert(h, EntryState { token_armed: false, value: None })
        } else {
            m
        }
    } else {
        m.insert(h, EntryState { token_armed: false, value: None })
    }
}

impl TlpdbByHash {
    pub open spec fn wf(&self) -> bool {
        keys_unique(self.mapping.deep_view())
    }

    pub open spec fn view(&self) -> Map<Seq<char>, EntryState> {
        assoc_map(self.mapping.deep_view())
    }

    /// A fresh table with no entries.
    pub fn new() -> (r: TlpdbByHash)
        ensures
            r.wf(),
            r@ == Map::<Seq<char>, EntryState>::empty(),
    {
        let r = TlpdbByHash { mapping: Vec::new() };
        proof {
            assert(r.mapping.deep_view() =~= Seq::<(Seq<char>, EntryState)>::empty());
        }
        r
    }

    /// Position of the entry for `hash`, if one exists.
    fn find_entry(&self, hash: &str) -> (r: Option<usize>)
        requires
            self.wf(),
        ensures
            r matches Some(i) ==> i < self.mapping@.len() && self.mapping.deep_view()[i as int].0
                == hash@ && self@.contains_key(hash@) && self@[hash@]
                == self.mapping.deep_view()[i as int].1,
            r is None ==> !self@.contains_key(hash@),
    {
        let n = self.mapping.len();
        let mut i: usize = 0;
        while i < n
            invariant
                i <= n == self.mapping@.len(),
                self.wf(),
                forall|j: int| 0 <= j < i ==> (#[trigger] self.mapping.deep_view()[j]).0 != hash@,
            decreases n - i,
        {
            proof {
                assert(self.mapping.deep_view()[i as int] == self.mapping@[i as int].deep_view());
            }
            if str_equal(self.mapping[i].0.as_str(), hash) {
                proof {
                    lemma_assoc_map_index(self.mapping.deep_view(), i as int);
                }
                return Some(i);
            }
            i = i + 1;
        }
        proof {
            lemma_assoc_map_dom(self.mapping.deep_view(), hash@);
        }
        None
    }

    /// The cached verdict for `hash`, if its entry holds one.
    pub fn get(&self, hash: &str) -> (r: Option<MirrorData>)
        requires
            self.wf(),
        ensures
            r == if self@.contains_key(hash@) {
                self@[hash@].value
            } else {
                None::<MirrorData>
            },
    {
        match self.find_entry(hash) {
            Some(i) => self.mapping[i].1.value,
            None => None,
        }
    }

    /// One caller's check-in for `hash`: the cached verdict if the entry is
    /// resolved, leadership if the token is free (creating the entry on
    /// first reference), otherwise an instruction to wait.
    pub fn poll(&mut self, hash: &str) -> (r: PollOutcome)
        requires
            old(self).wf(),
        ensures
            final(self).wf(),
            r == spec_poll_result(old(self)@, hash@),
            final(self)@ == spec_poll_state(old(self)@, hash@),
    {
        match self.find_entry(hash) {
            Some(i) => {
                let st = self.mapping[i].1;
                match st.value {
                    Some(v) => {
                        proof {
                            assert(spec_poll_state(self@, hash@) =~= self@);
                        }
                        PollOutcome::Ready(v)
                    },
                    None => {
                        if st.token_armed {
                            let ghost s0 = self.mapping.deep_view();
                            let key = self.mapping[i].0.clone();
                            proof {
                                assert(self.mapping@[i as int].0@ == s0[i as int].0);
                            }
                            self.mapping.set(
                                i,
                                (key, EntryState { token_armed: false, value: None }),
                            );
                            proof {
                                assert(self.mapping.deep_view() =~= s0.update(
                                    i as int,
                                    (s0[i as int].0, EntryState { token_armed: false, value: None }),
                                ));
                                lemma_assoc_map_update(
                                    s0,
                                    i as int,
                                    EntryState { token_armed: false, value: None },
                                );
                            }
                            PollOutcome::Lead
                        } else {
                            proof {
                                assert(spec_poll_state(self@, hash@) =~= self@);
                            }
                            PollOutcome::Wait
                        }
                    },
                }
            },
            None => {
                let ghost s0 = self.mapping.deep_view();
                proof {
                    lemma_assoc_map_dom(s0, hash@);
                    assert(forall|j: int| 0 <= j < s0.len() ==> (#[trigger] s0[j]).0 != hash@);
                }
                self.mapping.push(
                    (hash.to_owned(), EntryState { token_armed: false, value: None }),
                );
                proof {
                    assert(self.mapping.deep_view() =~= s0.push(
                        (hash@, EntryState { token_armed: false, value: None }),
                    ));
                    lemma_assoc_map_push(
                        s0,
                        hash@,
                        EntryState { token_armed: false, value: None },
                    );
                }
                PollOutcome::Lead
            },
        }
    }

    /// The leader writes the verdict into the slot, which must still be
    /// empty; the token stays consumed.
    pub fn complete(&mut self, hash: &str, data: MirrorData)
        requires
            old(self).wf(),
            old(self)@.contains_key(hash@),
            old(self)@[hash@].value is None,
            !old(self)@[hash@].token_armed,
        ensures
            final(self).wf(),
            final(self)@ == old(self)@.insert(
                hash@,
                EntryState { token_armed: false, value: Some(data) },
            ),
    {
        match self.find_entry(hash) {
            Some(i) => {
                let ghost s0 = self.mapping.deep_view();
                let key = self.mapping[i].0.clone();
                proof {
                    assert(self.mapping@[i as int].0@ == s0[i as int].0);
                }
                self.mapping.set(i, (key, EntryState { token_armed: false, value: Some(data) }));
                proof {
                    assert(self.mapping.deep_view() =~= s0.update(
                        i as int,
                        (s0[i as int].0, EntryState { token_armed: false, value: Some(data) }),
                    ));
                    lemma_assoc_map_update(
                        s0,
                        i as int,
                        EntryState { token_armed: false, value: Some(data) },
                    );
                }
            },
            None => {
                proof {
                    assert(false);
                }
            },
        }
    }

    /// A failed leader hands leadership back: the token is re-armed so that
    /// another candidate mirror can try; the empty slot stays empty.
    pub fn abandon(&mut self, hash: &str)
        requires
            old(self).wf(),
            old(self)@.contains_key(hash@),
            old(self)@[hash@].value is None,
            !old(self)@[hash@].token_armed,
        ensures
            final(self).wf(),
            final(self)@ == old(self)@.insert(
                hash@,
                EntryState { token_armed: true, value: None },
            ),
    {
        match self.find_entry(hash) {
            Some(i) => {
                let ghost s0 = self.mapping.deep_view();
                let key = self.mapping[i].0.clone();
                proof {
                    assert(self.mapping@[i as int].0@ == s0[i as int].0);
                }
                self.mapping.set(i, (key, EntryState { token_armed: true, value: None }));
                proof {
                    assert(self.mapping.deep_view() =~= s0.update(
                        i as int,
                        (s0[i as int].0, EntryState { token_armed: true, value: None }),
                    ));
                    lemma_assoc_map_update(
                        s0,
                        i as int,
                        EntryState { token_armed: true, value: None },
                    );
                }
            },
            None => {
                proof {
                    assert(false);
                }
            },
        }
    }
}

} // verus!

verus! {

/// The bytes a fetch handed back, if it succeeded.
pub open spec fn opt_bytes(fetched: Option<&[u8]>) -> Option<Seq<u8>> {
    match fetched {
        Some(b) => Some(b@),
        None => None,
    }
}

/// What a leader makes of one candidate's fetched bytes: the verdict of the
/// decompressed document when the fetch succeeded and the content's digest
/// equals the checksum, and nothing otherwise (fetch failure, a malformed
/// archive, or a digest mismatch).
pub open spec fn leader_verdict(h: Seq<char>, fetched: Option<Seq<u8>>) -> Option<MirrorData> {
    match fetched {
        None => None,
        Some(bytes) => match xz_text_of(bytes) {
            None => None,
            Some(t) => if spec_digest_ok(h, vstd::utf8::encode_utf8(t)) {
                Some(spec_classify(t))
            } else {
                None
            },
        },
    }
}

impl TlpdbByHash {
    /// The elected leader's one attempt: decompress, verify the digest, and
    /// classify. Success broadcasts the verdict (even a `Dead`
    /// classification is a terminal verdict); any failure returns the
    /// leadership token so another candidate can take over, and is `Dead`
    /// for this caller alone.
    pub fn leader_step(&mut self, hash: &str, fetched: Option<&[u8]>) -> (r: MirrorData)
        requires
            old(self).wf(),
            old(self)@.contains_key(hash@),
            old(self)@[hash@].value is None,
            !old(self)@[hash@].token_armed,
        ensures
            final(self).wf(),
            match leader_verdict(hash@, opt_bytes(fetched)) {
                Some(v) => r == v && final(self)@ == old(self)@.insert(
                    hash@,
                    EntryState { token_armed: false, value: Some(v) },
                ),
                None => r == MirrorData::Dead && final(self)@ == old(self)@.insert(
                    hash@,
                    EntryState { token_armed: true, value: None },
                ),
            },
    {
        let bytes = match fetched {
            Some(b) => b,
            None => {
                self.abandon(hash);
                return MirrorData::Dead;
            },
        };
        let text = match xz_decompress_text(bytes) {
            Some(t) => t,
            None => {
                self.abandon(hash);
                return MirrorData::Dead;
            },
        };
        if !digest_matches(hash, text.as_str()) {
            self.abandon(hash);
            return MirrorData::Dead;
        }
        let data = get_mirror_data_from_tlpdb(text.as_str());
        self.complete(hash, data);
        data
    }

    /// The whole single-flight resolution for one checksum, over the fetch
    /// outcomes of its candidate mirrors in the order they got leadership:
    /// a verdict already broadcast is simply served; otherwise leadership
    /// passes from candidate to candidate until one verifies, whose verdict
    /// is broadcast and final; if every candidate fails the entry is left
    /// armed for a later caller and the answer is `Dead`.
    pub fn resolve_candidates(&mut self, hash: &str, fetched: &Vec<Option<Vec<u8>>>) -> (r:
        MirrorData)
        requires
            old(self).wf(),
            old(self)@.contains_key(hash@) ==> old(self)@[hash@].value is Some || old(
                self,
            )@[hash@].token_armed,
        ensures
            final(self).wf(),
            old(self)@.contains_key(hash@) && old(self)@[hash@].value is Some ==> r == old(
                self,
            )@[hash@].value.unwrap() && final(self)@ == old(self)@,
            !(old(self)@.contains_key(hash@) && old(self)@[hash@].value is Some) ==> match
                spec_first_success(hash@, fetched.deep_view()) {
                Some(v) => r == v && final(self)@ == old(self)@.insert(
                    hash@,
                    EntryState { token_armed: false, value: Some(v) },
                ),
                None => r == MirrorData::Dead && (fetched.deep_view().len() == 0 ==> final(self)@
                    == old(self)@) && (fetched.deep_view().len() > 0 ==> final(self)@ == old(
                    self,
                )@.insert(hash@, EntryState { token_armed: true, value: None })),
            },
    {
        if let Some(v) = self.get(hash) {
            return v;
        }
        let n = fetched.len();
        proof {
            assert(fetched.deep_view().skip(0) =~= fetched.deep_view());
        }
        let mut i: usize = 0;
        while i < n
            invariant
                i <= n == fetched@.len(),
                self.wf(),
                old(self)@.contains_key(hash@) ==> old(self)@[hash@].value is None,
                old(self)@.contains_key(hash@) ==> old(self)@[hash@].token_armed,
                i == 0 ==> self@ == old(self)@,
                i > 0 ==> self@ == old(self)@.insert(
                    hash@,
                    EntryState { token_armed: true, value: None },
                ),
                spec_first_success(hash@, fetched.deep_view()) == spec_first_success(
                    hash@,
                    fetched.deep_view().skip(i as int),
                ),
                forall|k: int| 0 <= k < i ==> leader_verdict(
                    hash@,
                    #[trigger] fetched.deep_view()[k],
                ) is None,
            decreases n - i,
        {
            proof {
                assert(fetched.deep_view().skip(i as int)[0] == fetched.deep_view()[i as int]);
                assert(fetched.deep_view().skip(i as int).skip(1) =~= fetched.deep_view().skip(
                    i + 1,
                ));
            }
            match self.poll(hash) {
                PollOutcome::Ready(_v) => {
                    proof {
                        assert(false);
                    }
                },
                PollOutcome::Wait => {
                    proof {
                        assert(false);
                    }
                },
                PollOutcome::Lead => {},
            }
            let arg: Option<&[u8]> = match &fetched[i] {
                Some(b) => Some(b.as_slice()),
                None => None,
            };
            proof {
                assert(opt_bytes(arg) == fetched.deep_view()[i as int]);
            }
            let r = self.leader_step(hash, arg);
            match self.get(hash) {
                Some(v2) => {
                    proof {
                        assert(leader_verdict(hash@, fetched.deep_view()[i as int]) == Some(v2));
                        assert(spec_first_success(hash@, fetched.deep_view().skip(i as int))
                            == Some(v2));
                        assert(self@ =~= old(self)@.insert(
                            hash@,
                            EntryState { token_armed: false, value: Some(v2) },
                        ));
                    }
                    return r;
                },
                None => {
                    proof {
                        assert(leader_verdict(hash@, fetched.deep_view()[i as int]) is None);
                        assert(self@ =~= old(self)@.insert(
                            hash@,
                            EntryState { token_armed: true, value: None },
                        ));
                    }
                },
            }
            i = i + 1;
        }
        proof {
            assert(fetched.deep_view().skip(n as int) =~= Seq::<Option<Seq<u8>>>::empty());
        }
        MirrorData::Dead
    }
}

/// The verdict of the first candidate whose fetch both succeeded and
/// verified, in leadership order.
pub open spec fn spec_first_success(h: Seq<char>, cands: Seq<Option<Seq<u8>>>) -> Option<
    MirrorData,
>
    decreases cands.len(),
{
    if cands.len() == 0 {
        None
    } else {
        match leader_verdict(h, cands[0]) {
            Some(v) => Some(v),
            None => spec_first_success(h, cands.skip(1)),
        }
    }
}

/// Law: a broadcast verdict is final. Once an entry holds one, every further
/// poll for its checksum is answered at once with that same verdict, the
/// state does not change, and no leadership is granted — so no further
/// fetch happens for that checksum, however many callers ask.
pub proof fn lemma_resolved_is_stable(m: Map<Seq<char>, EntryState>, h: Seq<char>, v: MirrorData)
    requires
        m.contains_key(h),
        m[h].value == Some(v),
    ensures
        spec_poll_result(m, h) == PollOutcome::Ready(v),
        spec_poll_state(m, h) == m,
{
}

/// Law: leadership is exclusive. A poll that elects a leader leaves the
/// entry disarmed and unresolved, and until that leader completes or
/// abandons, every further poll for the checksum waits: no second fetch can
/// begin.
pub proof fn lemma_single_flight(m: Map<Seq<char>, EntryState>, h: Seq<char>)
    requires
        spec_poll_result(m, h) == PollOutcome::Lead,
    ensures
        spec_poll_result(spec_poll_state(m, h), h) == PollOutcome::Wait,
{
}

/// Law: failure hands leadership over. If the first candidates all fail
/// (their fetch failed, the archive was malformed, or the digest did not
/// match) and a later candidate verifies, the resolved verdict is exactly
/// the one derived from that candidate's content.
pub proof fn lemma_failover(h: Seq<char>, cands: Seq<Option<Seq<u8>>>, m: int)
    requires
        0 <= m < cands.len(),
        forall|i: int| 0 <= i < m ==> leader_verdict(h, #[trigger] cands[i]) is None,
        leader_verdict(h, cands[m]) is Some,
    ensures
        spec_first_success(h, cands) == leader_verdict(h, cands[m]),
    decreases m,
{
    if m > 0 {
        assert(cands.skip(1)[m - 1] == cands[m]);
        assert(forall|i: int| 0 <= i < m - 1 ==> #[trigger] cands.skip(1)[i] == cands[i + 1]);
        lemma_failover(h, cands.skip(1), m - 1);
    }
}

} // verus!
