//! The Head-State Reconciler: refresh the wallet's nonce and
//! latest-ciphertext-per-asset from the daemon, discover new assets, and
//! decide whether a block-level resync is required.

use vstd::prelude::*;
use crate::model::{Event, NetworkError};
use crate::storage::{Storage, StorageV, BalanceEntry, lemma_same_assets,
    lemma_same_balances, lemma_same_unconf};
use crate::daemon::DaemonState;

verus! {

/// The nonce the reconciler works with: the caller's hint wins; else the
/// daemon's, when nonce syncing was requested; else none.
pub open spec fn resolved_nonce(
    daemon: DaemonState,
    nonce: Option<u64>,
    sync_nonce: bool,
) -> Option<u64> {
    if nonce is Some {
        nonce
    } else if sync_nonce {
        daemon.nonce
    } else {
        Option::None
    }
}

/// The account is unregistered: a nonce was asked for and the daemon has
/// none.
pub open spec fn unregistered(daemon: DaemonState, nonce: Option<u64>, sync_nonce: bool) -> bool {
    nonce is None && sync_nonce && daemon.nonce is None
}

/// The compressed ciphertext of the daemon's newest balance version.
pub open spec fn tip_ct(daemon: DaemonState, a: u64) -> u64 {
    daemon.chain_of(a)[0].ciphertext
}

/// What trial-decrypting that ciphertext yields.
pub open spec fn tip_plain(daemon: DaemonState, a: u64) -> u64 {
    daemon.chain_of(a)[0].plaintext
}

/// A balance record must be rewritten when none is stored or the stored
/// ciphertext differs from the daemon's newest.
pub open spec fn must_update(st0: StorageV, daemon: DaemonState, a: u64) -> bool {
    !st0.has_balance(a) || st0.balance_at(a).ciphertext != tip_ct(daemon, a)
}

/// The plaintext persisted on an update: a cached unconfirmed decryption of
/// the same ciphertext is preferred; otherwise the trial decryption.
pub open spec fn new_value(st0: StorageV, daemon: DaemonState, a: u64) -> u64 {
    match st0.unconf_plain(a, tip_ct(daemon, a)) {
        Option::Some(v) => v,
        Option::None => tip_plain(daemon, a),
    }
}

/// An asset can be reconciled when the daemon has a balance chain for it
/// and either the wallet already knows it or the daemon has its metadata.
pub open spec fn asset_ok(st0: StorageV, daemon: DaemonState, a: u64) -> bool {
    daemon.has_chain(a) && (st0.has_asset(a) || daemon.has_asset_data(a))
}

/// Whether every listed asset can be reconciled against this wallet state.
fn validate_assets(storage: &Storage, daemon: &DaemonState, list: &Vec<u64>) -> (r: bool)
    requires
        storage@.wf(),
        daemon.wf(),
    ensures
        r <==> forall|j: int|
            0 <= j < list@.len() ==> asset_ok(storage@, *daemon, #[trigger] list@[j]),
        !r ==> exists|j: int|
            0 <= j < list@.len() && !asset_ok(storage@, *daemon, #[trigger] list@[j]),
{
    let n = list.len();
    let mut i: usize = 0;
    while i < n
        invariant
            storage@.wf(),
            daemon.wf(),
            n == list@.len(),
            i <= n,
            forall|j: int| 0 <= j < i ==> asset_ok(storage@, *daemon, #[trigger] list@[j]),
        decreases n - i,
    {
        let a = list[i];
        if daemon.get_balance(a).is_none() {
            proof {
                assert(!asset_ok(storage@, *daemon, list@[i as int]));
            }
            return false;
        }
        if !storage.contains_asset(a) {
            if daemon.get_asset(a).is_none() {
                proof {
                    assert(!asset_ok(storage@, *daemon, list@[i as int]));
                }
                return false;
            }
        }
        i += 1;
    }
    true
}

/// Persist metadata for every listed asset the wallet does not know yet,
/// emitting `NewAsset` for each.
#[verifier::rlimit(100)]
#[verifier::spinoff_prover]
fn register_assets(
    storage: &mut Storage,
    daemon: &DaemonState,
    list: &Vec<u64>,
    events: &mut Vec<Event>,
)
    requires
        old(storage)@.wf(),
        daemon.wf(),
        list@.no_duplicates(),
        forall|j: int|
            0 <= j < list@.len() ==> asset_ok(old(storage)@, *daemon, #[trigger] list@[j]),
    ensures
        final(storage)@.wf(),
        forall|x: u64| #![trigger final(storage)@.has_asset(x)]
            (final(storage)@.has_asset(x) <==> (old(storage)@.has_asset(x) || list@.contains(
                x,
            ))),
        final(storage)@ == (StorageV { assets: final(storage)@.assets, ..old(storage)@ }),
        old(events)@.is_prefix_of(final(events)@),
        forall|k: int|
            old(events)@.len() <= k < final(events)@.len() ==> (#[trigger] final(events)@[
                k
            ] is NewAsset),
        // known assets keep their metadata; new ones get the daemon's
        forall|x: u64|
            #[trigger] old(storage)@.has_asset(x) ==> final(storage)@.asset_decimals(x)
                == old(storage)@.asset_decimals(x),
        forall|x: u64|
            !old(storage)@.has_asset(x) && #[trigger] final(storage)@.has_asset(x)
                ==> final(storage)@.asset_decimals(x) == daemon.asset_decimals(x),
        // each newly discovered asset is announced with its metadata
        forall|j: int|
            0 <= j < list@.len() && !old(storage)@.has_asset(#[trigger] list@[j])
                ==> final(events)@.contains(
                Event::NewAsset {
                    asset: list@[j],
                    decimals: daemon.asset_decimals(list@[j]),
                },
            ),
        (forall|j: int| 0 <= j < list@.len() ==> old(storage)@.has_asset(#[trigger] list@[j]))
            ==> final(storage)@ == old(storage)@ && final(events)@ == old(events)@,
{
    let ghost st0 = storage@;
    let ghost ev0 = events@;
    let n = list.len();
    let mut i: usize = 0;
    while i < n
        invariant
            st0.wf(),
            storage@.wf(),
            daemon.wf(),
            n == list@.len(),
            i <= n,
            list@.no_duplicates(),
            forall|j: int| 0 <= j < n ==> asset_ok(st0, *daemon, #[trigger] list@[j]),
            forall|x: u64| #![trigger storage@.has_asset(x)]
                (storage@.has_asset(x) <==> (st0.has_asset(x) || exists|j: int|
                    0 <= j < i && #[trigger] list@[j] == x)),
            storage@ == (StorageV { assets: storage@.assets, ..st0 }),
            ev0.is_prefix_of(events@),
            forall|k: int|
                ev0.len() <= k < events@.len() ==> (#[trigger] events@[k] is NewAsset),
            forall|x: u64|
                #[trigger] st0.has_asset(x) ==> storage@.asset_decimals(x)
                    == st0.asset_decimals(x),
            forall|x: u64|
                !st0.has_asset(x) && #[trigger] storage@.has_asset(x) ==> storage@
                    .asset_decimals(x) == daemon.asset_decimals(x),
            forall|j: int|
                0 <= j < i && !st0.has_asset(#[trigger] list@[j]) ==> events@.contains(
                    Event::NewAsset {
                        asset: list@[j],
                        decimals: daemon.asset_decimals(list@[j]),
                    },
                ),
            (forall|j: int| 0 <= j < i ==> st0.has_asset(#[trigger] list@[j])) ==> storage@
                == st0 && events@ == ev0,
        decreases n - i,
    {
        let a = list[i];
        let ghost pre = storage@;
        let ghost evpre = events@;
        let known = storage.contains_asset(a);
        if !known {
            match daemon.get_asset(a) {
                Option::Some(d) => {
                    storage.add_asset(a, d.decimals);
                    events.push(Event::NewAsset { asset: a, decimals: d.decimals });
                },
                Option::None => {
                    // ruled out by validation: the asset is reconcilable
                    proof {
                        assert(asset_ok(st0, *daemon, a));
                        assert(st0.has_asset(a));
                        assert(false);
                    }
                    return;
                },
            }
        }
        proof {
            if known {
                assert(storage@ == pre && events@ == evpre);
            }
            assert forall|x: u64| #![trigger storage@.has_asset(x)]
                (storage@.has_asset(x) <==> (st0.has_asset(x) || exists|j: int|
                    0 <= j < i + 1 && #[trigger] list@[j] == x)) by {
                assert(pre.has_asset(x) <==> (st0.has_asset(x) || exists|j: int|
                    0 <= j < i && #[trigger] list@[j] == x));
                if x == a {
                    assert(storage@.has_asset(a));
                    assert(list@[i as int] == x);
                } else {
                    assert(storage@.has_asset(x) == pre.has_asset(x));
                    if exists|j: int| 0 <= j < i + 1 && #[trigger] list@[j] == x {
                        let j = choose|j: int| 0 <= j < i + 1 && #[trigger] list@[j] == x;
                        assert(j < i);
                    }
                }
            }
            if forall|j: int| 0 <= j < i + 1 ==> st0.has_asset(#[trigger] list@[j]) {
                assert(st0.has_asset(list@[i as int]));
                assert(known);
                assert(storage@ == st0 && events@ == ev0);
            }
            assert(ev0.is_prefix_of(events@)) by {
                assert forall|k: int| 0 <= k < ev0.len() implies events@[k] == ev0[k] by {
                    assert(evpre[k] == ev0[k]);
                }
                assert(ev0 =~= events@.subrange(0, ev0.len() as int));
            }
            assert forall|x: u64| #[trigger] pre.has_asset(x) implies storage@.asset_decimals(
                x,
            ) == pre.asset_decimals(x) by {
                if !known {
                    let k = pre.asset_ix(x);
                    pre.lemma_asset_index(k);
                    assert(storage@.assets[k] == pre.assets[k]);
                    storage@.lemma_asset_index(k);
                }
            }
            assert forall|x: u64| #[trigger] st0.has_asset(x) implies storage@.asset_decimals(
                x,
            ) == st0.asset_decimals(x) by {
                assert(pre.has_asset(x));
                assert(pre.asset_decimals(x) == st0.asset_decimals(x));
            }
            assert forall|j: int|
                0 <= j < i + 1 && !st0.has_asset(#[trigger] list@[j])
                    implies events@.contains(
                Event::NewAsset {
                    asset: list@[j],
                    decimals: daemon.asset_decimals(list@[j]),
                },
            ) by {
                if j < i {
                    let y = Event::NewAsset {
                        asset: list@[j],
                        decimals: daemon.asset_decimals(list@[j]),
                    };
                    assert(evpre.contains(y));
                    let k = choose|k: int| 0 <= k < evpre.len() && evpre[k] == y;
                    assert(events@[k] == y);
                } else {
                    assert(!known);
                    assert(events@[events@.len() - 1] == Event::NewAsset {
                        asset: a,
                        decimals: daemon.asset_decimals(a),
                    });
                }
            }
        }
        i += 1;
    }
    proof {
        assert forall|x: u64|
            storage@.has_asset(x) <==> (st0.has_asset(x) || list@.contains(x)) by {
            if list@.contains(x) {
                let j = choose|j: int| 0 <= j < list@.len() && list@[j] == x;
                assert(list@[j] == x);
            }
            if exists|j: int| 0 <= j < n && #[trigger] list@[j] == x {
                let j = choose|j: int| 0 <= j < n && #[trigger] list@[j] == x;
                assert(list@.contains(x));
            }
        }
    }
}

/// Rewrite each listed balance whose newest daemon ciphertext differs from
/// the stored one, emitting `BalanceChanged`. Returns whether any balance
/// was rewritten.
#[verifier::rlimit(80)]
fn apply_balances(
    storage: &mut Storage,
    daemon: &DaemonState,
    list: &Vec<u64>,
    events: &mut Vec<Event>,
) -> (changed: bool)
    requires
        old(storage)@.wf(),
        daemon.wf(),
        list@.no_duplicates(),
        forall|j: int| 0 <= j < list@.len() ==> daemon.has_chain(#[trigger] list@[j]),
    ensures
        final(storage)@.wf(),
        forall|i: int|
            0 <= i < list@.len() ==> final(storage)@.has_balance(#[trigger] list@[i])
                && final(storage)@.balance_at(list@[i]) == (if must_update(
                old(storage)@,
                *daemon,
                list@[i],
            ) {
                BalanceEntry {
                    asset: list@[i],
                    plaintext: new_value(old(storage)@, *daemon, list@[i]),
                    ciphertext: tip_ct(*daemon, list@[i]),
                }
            } else {
                old(storage)@.balance_at(list@[i])
            }),
        forall|a: u64|
            !list@.contains(a) ==> final(storage)@.has_balance(a)
                == old(storage)@.has_balance(a) && (old(storage)@.has_balance(a)
                ==> final(storage)@.balance_at(a) == old(storage)@.balance_at(a)),
        changed == exists|i: int|
            0 <= i < list@.len() && must_update(old(storage)@, *daemon, #[trigger] list@[i]),
        final(storage)@ == (StorageV { balances: final(storage)@.balances, ..old(storage)@ }),
        old(events)@.is_prefix_of(final(events)@),
        forall|k: int|
            old(events)@.len() <= k < final(events)@.len() ==> (#[trigger] final(events)@[
                k
            ] is BalanceChanged),
        // each rewritten balance is announced with the persisted plaintext
        forall|i: int|
            0 <= i < list@.len() && must_update(old(storage)@, *daemon, #[trigger] list@[i])
                ==> final(events)@.contains(
                Event::BalanceChanged {
                    asset: list@[i],
                    balance: new_value(old(storage)@, *daemon, list@[i]),
                },
            ),
        !changed ==> final(storage)@ == old(storage)@ && final(events)@ == old(events)@,
{
    let ghost st0 = storage@;
    let ghost ev0 = events@;
    let mut changed = false;
    let n = list.len();
    let mut i: usize = 0;
    while i < n
        invariant
            st0.wf(),
            storage@.wf(),
            daemon.wf(),
            n == list@.len(),
            i <= n,
            list@.no_duplicates(),
            forall|j: int| 0 <= j < n ==> daemon.has_chain(#[trigger] list@[j]),
            storage@ == (StorageV { balances: storage@.balances, ..st0 }),
            forall|j: int|
                0 <= j < i ==> storage@.has_balance(#[trigger] list@[j]) && storage@.balance_at(
                    list@[j],
                ) == (if must_update(st0, *daemon, list@[j]) {
                    BalanceEntry {
                        asset: list@[j],
                        plaintext: new_value(st0, *daemon, list@[j]),
                        ciphertext: tip_ct(*daemon, list@[j]),
                    }
                } else {
                    st0.balance_at(list@[j])
                }),
            forall|x: u64|
                !(exists|j: int| 0 <= j < i && #[trigger] list@[j] == x) ==> storage@
                    .has_balance(x) == st0.has_balance(x) && (st0.has_balance(x) ==> storage@
                    .balance_at(x) == st0.balance_at(x)),
            ev0.is_prefix_of(events@),
            forall|k: int|
                ev0.len() <= k < events@.len() ==> (#[trigger] events@[k] is BalanceChanged),
            forall|j: int|
                0 <= j < i && must_update(st0, *daemon, #[trigger] list@[j])
                    ==> events@.contains(
                    Event::BalanceChanged {
                        asset: list@[j],
                        balance: new_value(st0, *daemon, list@[j]),
                    },
                ),
            changed == exists|j: int|
                0 <= j < i && must_update(st0, *daemon, #[trigger] list@[j]),
            !changed ==> storage@ == st0 && events@ == ev0,
        decreases n - i,
    {
        let a = list[i];
        proof {
            assert(!(exists|j: int| 0 <= j < i && #[trigger] list@[j] == a)) by {
                if exists|j: int| 0 <= j < i && #[trigger] list@[j] == a {
                    let j = choose|j: int| 0 <= j < i && #[trigger] list@[j] == a;
                    assert(list@[j] == list@[i as int]);
                }
            }
        }
        let tip_ciphertext: u64;
        let tip_plaintext: u64;
        match daemon.get_balance(a) {
            Option::Some(chain) => {
                proof {
                    let ci = daemon.chain_ix(a);
                    assert(DaemonState::chain_wf(daemon.chains@[ci].versions@,
                        daemon.topoheight));
                }
                let v = chain.versions[0];
                tip_ciphertext = v.ciphertext;
                tip_plaintext = v.plaintext;
                proof {
                    assert(tip_ciphertext == tip_ct(*daemon, a) && tip_plaintext == tip_plain(
                        *daemon,
                        a,
                    ));
                }
            },
            Option::None => {
                // ruled out by the precondition: every asset has a chain
                proof {
                    assert(daemon.has_chain(list@[i as int]));
                    assert(false);
                }
                return false;
            },
        }
        let ghost pre = storage@;
        let ghost evpre = events@;
        let stored = storage.get_balance_for(a);
        let must = match stored {
            Option::Some(b) => b.ciphertext != tip_ciphertext,
            Option::None => true,
        };
        proof {
            assert(pre.has_balance(a) == st0.has_balance(a) && (st0.has_balance(a)
                ==> pre.balance_at(a) == st0.balance_at(a)));
            assert(must == must_update(st0, *daemon, a));
        }
        if must {
            let value = match storage.get_unconfirmed_balance_decoded_for(a, tip_ciphertext) {
                Option::Some(v) => v,
                Option::None => tip_plaintext,
            };
            proof {
                assert(pre.unconfirmed == st0.unconfirmed);
                lemma_same_unconf(pre, st0);
                assert(value == new_value(st0, *daemon, a));
            }
            events.push(Event::BalanceChanged { asset: a, balance: value });
            storage.set_balance_for(a, value, tip_ciphertext);
            changed = true;
        }
        proof {
            assert forall|x: u64|
                !(exists|j: int| 0 <= j < i + 1 && #[trigger] list@[j] == x)
                    implies storage@.has_balance(x) == st0.has_balance(x) && (st0.has_balance(
                    x,
                ) ==> storage@.balance_at(x) == st0.balance_at(x)) by {
                assert(list@[i as int] != x);
                assert(!(exists|j: int| 0 <= j < i && #[trigger] list@[j] == x));
            }
            assert forall|j: int|
                0 <= j < i + 1 implies storage@.has_balance(#[trigger] list@[j]) && storage@
                    .balance_at(list@[j]) == (if must_update(st0, *daemon, list@[j]) {
                    BalanceEntry {
                        asset: list@[j],
                        plaintext: new_value(st0, *daemon, list@[j]),
                        ciphertext: tip_ct(*daemon, list@[j]),
                    }
                } else {
                    st0.balance_at(list@[j])
                }) by {
                if j < i {
                    assert(list@[j] != a);
                    assert(pre.has_balance(list@[j]));
                }
            }
            assert(ev0.is_prefix_of(events@)) by {
                assert forall|k: int| 0 <= k < ev0.len() implies events@[k] == ev0[k] by {
                    assert(evpre[k] == ev0[k]);
                }
                assert(ev0 =~= events@.subrange(0, ev0.len() as int));
            }
            assert forall|j: int|
                0 <= j < i + 1 && must_update(st0, *daemon, #[trigger] list@[j])
                    implies events@.contains(
                Event::BalanceChanged {
                    asset: list@[j],
                    balance: new_value(st0, *daemon, list@[j]),
                },
            ) by {
                let y = Event::BalanceChanged {
                    asset: list@[j],
                    balance: new_value(st0, *daemon, list@[j]),
                };
                if j < i {
                    assert(evpre.contains(y));
                    let k = choose|k: int| 0 <= k < evpre.len() && evpre[k] == y;
                    assert(events@[k] == y);
                } else {
                    assert(must);
                    assert(events@[events@.len() - 1] == y);
                }
            }
        }
        i += 1;
    }
    proof {
        assert forall|a: u64|
            !list@.contains(a) implies !(exists|j: int| 0 <= j < n && #[trigger] list@[j]
                == a) by {
            if exists|j: int| 0 <= j < n && #[trigger] list@[j] == a {
                let j = choose|j: int| 0 <= j < n && #[trigger] list@[j] == a;
                assert(list@.contains(a));
            }
        }
    }
    changed
}

/// Refresh nonce and balances. `assets` restricts the reconciliation to the
/// given assets; with none given, the daemon's declared set for the account
/// is used. A nonce hint in `nonce` is persisted as-is; without one, the
/// daemon is asked only when `sync_nonce` is set, and an unregistered
/// account wipes balances and asset metadata. Returns whether blocks must
/// be walked (something changed).
#[verifier::rlimit(100)]
#[verifier::spinoff_prover]
pub fn sync_head_state(
    storage: &mut Storage,
    daemon: &DaemonState,
    assets: Option<&Vec<u64>>,
    nonce: Option<u64>,
    sync_nonce: bool,
    events: &mut Vec<Event>,
) -> (r: Result<bool, NetworkError>)
    requires
        old(storage)@.wf(),
        daemon.wf(),
        assets matches Option::Some(v) ==> v@.no_duplicates(),
        daemon.account_assets@.no_duplicates(),
    ensures
        final(storage)@.wf(),
        unregistered(*daemon, nonce, sync_nonce) ==> r == Result::<bool, NetworkError>::Ok(
            false,
        ) && final(events)@ == old(events)@ && final(storage)@ == (if old(storage)@.balances.len() > 0 {
            StorageV { balances: Seq::<BalanceEntry>::empty(), assets: Seq::empty(), ..old(storage)@ }
        } else {
            old(storage)@
        }),
        !unregistered(*daemon, nonce, sync_nonce) ==> (match assets {
            Option::Some(v) => {
            (r is Err) <==> exists|i: int|
                0 <= i < v@.len() && !asset_ok(old(storage)@, *daemon, #[trigger] v@[i])
            },
            Option::None => {
            (r is Err) <==> exists|i: int|
                0 <= i < daemon.account_assets@.len() && !asset_ok(old(storage)@, *daemon, #[trigger] daemon.account_assets@[i])
            },
        }),
        r is Err ==> r == Result::<bool, NetworkError>::Err(NetworkError::DaemonAPIError)
            && final(storage)@ == old(storage)@ && final(events)@ == old(events)@,
        (r is Ok && !unregistered(*daemon, nonce, sync_nonce)) ==> final(storage)@.nonce == (
        match resolved_nonce(*daemon, nonce, sync_nonce) {
            Option::Some(n) => Option::Some(n),
            Option::None => old(storage)@.nonce,
        }),
        (r is Ok && !unregistered(*daemon, nonce, sync_nonce)) ==> (match assets {
            Option::Some(v) => {
            forall|a: u64|
                final(storage)@.has_asset(a) <==> (old(storage)@.has_asset(a) || v@.contains(
                    a,
                ))
            },
            Option::None => {
            forall|a: u64|
                final(storage)@.has_asset(a) <==> (old(storage)@.has_asset(a) || daemon.account_assets@.contains(
                    a,
                ))
            },
        }),
        (r is Ok && !unregistered(*daemon, nonce, sync_nonce)) ==> (match assets {
            Option::Some(v) => {
            forall|i: int|
                0 <= i < v@.len() ==> final(storage)@.has_balance(#[trigger] v@[i])
                    && final(storage)@.balance_at(v@[i]) == (if must_update(
                    old(storage)@,
                    *daemon,
                    v@[i],
                ) {
                    BalanceEntry {
                        asset: v@[i],
                        plaintext: new_value(old(storage)@, *daemon, v@[i]),
                        ciphertext: tip_ct(*daemon, v@[i]),
                    }
                } else {
                    old(storage)@.balance_at(v@[i])
                })
            },
            Option::None => {
            forall|i: int|
                0 <= i < daemon.account_assets@.len() ==> final(storage)@.has_balance(#[trigger] daemon.account_assets@[i])
                    && final(storage)@.balance_at(daemon.account_assets@[i]) == (if must_update(
                    old(storage)@,
                    *daemon,
                    daemon.account_assets@[i],
                ) {
                    BalanceEntry {
                        asset: daemon.account_assets@[i],
                        plaintext: new_value(old(storage)@, *daemon, daemon.account_assets@[i]),
                        ciphertext: tip_ct(*daemon, daemon.account_assets@[i]),
                    }
                } else {
                    old(storage)@.balance_at(daemon.account_assets@[i])
                })
            },
        }),
        (r is Ok && !unregistered(*daemon, nonce, sync_nonce)) ==> (match assets {
            Option::Some(v) => {
            forall|a: u64|
                !v@.contains(a) ==> final(storage)@.has_balance(a) == old(storage)@.has_balance(a) && (old(storage)@.has_balance(a) ==> final(storage)@.balance_at(a) == old(storage)@.balance_at(a))
            },
            Option::None => {
            forall|a: u64|
                !daemon.account_assets@.contains(a) ==> final(storage)@.has_balance(a) == old(storage)@.has_balance(a) && (old(storage)@.has_balance(a) ==> final(storage)@.balance_at(a) == old(storage)@.balance_at(a))
            },
        }),
        (r is Ok && !unregistered(*daemon, nonce, sync_nonce)) ==> (match assets {
            Option::Some(v) => {
            r == Result::<bool, NetworkError>::Ok(
                (resolved_nonce(*daemon, nonce, sync_nonce) matches Option::Some(n) && old(storage)@.nonce != Option::Some(n)) || exists|i: int|
                    0 <= i < v@.len() && must_update(old(storage)@, *daemon, #[trigger] v@[
                        i
                    ]),
            )
            },
            Option::None => {
            r == Result::<bool, NetworkError>::Ok(
                (resolved_nonce(*daemon, nonce, sync_nonce) matches Option::Some(n) && old(storage)@.nonce != Option::Some(n)) || exists|i: int|
                    0 <= i < daemon.account_assets@.len() && must_update(old(storage)@, *daemon, #[trigger] daemon.account_assets@[
                        i
                    ]),
            )
            },
        }),
        (r is Ok && !unregistered(*daemon, nonce, sync_nonce)) ==> final(storage)@
            == (StorageV {
            nonce: final(storage)@.nonce,
            assets: final(storage)@.assets,
            balances: final(storage)@.balances,
            ..old(storage)@
        }),
        // known assets keep their metadata; new ones carry the daemon's
        (r is Ok && !unregistered(*daemon, nonce, sync_nonce)) ==> forall|x: u64|
            #[trigger] old(storage)@.has_asset(x) ==> final(storage)@.asset_decimals(x)
                == old(storage)@.asset_decimals(x),
        (r is Ok && !unregistered(*daemon, nonce, sync_nonce)) ==> forall|x: u64|
            !old(storage)@.has_asset(x) && #[trigger] final(storage)@.has_asset(x)
                ==> final(storage)@.asset_decimals(x) == daemon.asset_decimals(x),
        // each newly discovered asset is announced with its metadata
        (r is Ok && !unregistered(*daemon, nonce, sync_nonce)) ==> (match assets {
            Option::Some(v) => {
            forall|j: int|
                0 <= j < v@.len() && !old(storage)@.has_asset(#[trigger] v@[j])
                    ==> final(events)@.contains(
                    Event::NewAsset { asset: v@[j], decimals: daemon.asset_decimals(v@[j]) },
                )
            },
            Option::None => {
            forall|j: int|
                0 <= j < daemon.account_assets@.len() && !old(storage)@.has_asset(
                    #[trigger] daemon.account_assets@[j],
                ) ==> final(events)@.contains(
                    Event::NewAsset {
                        asset: daemon.account_assets@[j],
                        decimals: daemon.asset_decimals(daemon.account_assets@[j]),
                    },
                )
            },
        }),
        // each rewritten balance is announced with the persisted plaintext
        (r is Ok && !unregistered(*daemon, nonce, sync_nonce)) ==> (match assets {
            Option::Some(v) => {
            forall|j: int|
                0 <= j < v@.len() && must_update(old(storage)@, *daemon, #[trigger] v@[j])
                    ==> final(events)@.contains(
                    Event::BalanceChanged {
                        asset: v@[j],
                        balance: new_value(old(storage)@, *daemon, v@[j]),
                    },
                )
            },
            Option::None => {
            forall|j: int|
                0 <= j < daemon.account_assets@.len() && must_update(
                    old(storage)@,
                    *daemon,
                    #[trigger] daemon.account_assets@[j],
                ) ==> final(events)@.contains(
                    Event::BalanceChanged {
                        asset: daemon.account_assets@[j],
                        balance: new_value(old(storage)@, *daemon, daemon.account_assets@[j]),
                    },
                )
            },
        }),
        (r is Ok && !unregistered(*daemon, nonce, sync_nonce)) ==> old(events)@.is_prefix_of(
            final(events)@,
        ),
        (r is Ok && !unregistered(*daemon, nonce, sync_nonce)) ==> forall|k: int|
            old(events)@.len() <= k < final(events)@.len() ==> (#[trigger] final(events)@[
                k
            ] is NewAsset || final(events)@[k] is BalanceChanged),
        // a reconciliation that changes nothing emits nothing
        (r == Result::<bool, NetworkError>::Ok(false) && !unregistered(
            *daemon,
            nonce,
            sync_nonce,
        )) ==> (match assets {
            Option::Some(v) => {
            (forall|i: int| 0 <= i < v@.len() ==> old(storage)@.has_asset(#[trigger] v@[i]))
                ==> final(storage)@ == old(storage)@ && final(events)@ == old(events)@
            },
            Option::None => {
            (forall|i: int| 0 <= i < daemon.account_assets@.len() ==> old(storage)@.has_asset(#[trigger] daemon.account_assets@[i]))
                ==> final(storage)@ == old(storage)@ && final(events)@ == old(events)@
            },
        }),
{
    let ghost st0 = storage@;
    let ghost ev0 = events@;

    // resolve the nonce to persist
    let new_nonce: Option<u64>;
    if nonce.is_some() {
        new_nonce = nonce;
    } else if sync_nonce {
        match daemon.get_nonce() {
            Option::Some(v) => {
                new_nonce = Option::Some(v);
            },
            Option::None => {
                // account unregistered: wipe balances and asset metadata
                if storage.has_any_balance() {
                    storage.delete_balances();
                    storage.delete_assets();
                }
                return Result::Ok(false);
            },
        }
    } else {
        new_nonce = Option::None;
    }
    proof {
        assert(!unregistered(*daemon, nonce, sync_nonce));
        assert(new_nonce == resolved_nonce(*daemon, nonce, sync_nonce));
    }

    // the assets to reconcile
    let list: &Vec<u64> = match assets {
        Option::Some(v) => v,
        Option::None => &daemon.account_assets,
    };

    // every asset must have a balance chain, and metadata if it is new
    if !validate_assets(storage, daemon, list) {
        proof {
            assert(storage@ == st0);
            let j = choose|j: int|
                0 <= j < list@.len() && !asset_ok(storage@, *daemon, #[trigger] list@[j]);
            assert(!asset_ok(st0, *daemon, list@[j]));
            match assets {
                Option::Some(v) => {
                    assert(v@[j] == list@[j]);
                    assert(exists|i: int|
                        0 <= i < v@.len() && !asset_ok(st0, *daemon, #[trigger] v@[i]));
                },
                Option::None => {
                    assert(daemon.account_assets@[j] == list@[j]);
                    assert(exists|i: int|
                        0 <= i < daemon.account_assets@.len() && !asset_ok(
                            st0,
                            *daemon,
                            #[trigger] daemon.account_assets@[i],
                        ));
                },
            }
        }
        return Result::Err(NetworkError::DaemonAPIError);
    }
    proof {
        assert(forall|j: int|
            0 <= j < list@.len() ==> asset_ok(st0, *daemon, #[trigger] list@[j]));
    }

    // register newly discovered assets
    register_assets(storage, daemon, list, events);
    let ghost st_assets = storage@;
    let ghost ev_assets = events@;

    // persist a resolved nonce that differs from the stored one
    let mut should_sync_blocks = false;
    if let Option::Some(nn) = new_nonce {
        let cur = storage.get_nonce();
        let differs = match cur {
            Option::Some(c) => c != nn,
            Option::None => true,
        };
        if differs {
            storage.set_nonce(nn);
            should_sync_blocks = true;
        }
    }
    let ghost st_nonce = storage@;
    let ghost nonce_changed = should_sync_blocks;
    proof {
        assert(!nonce_changed ==> st_nonce == st_assets);
        assert(st_assets.nonce == st0.nonce);
        assert(nonce_changed == (new_nonce matches Option::Some(nn2) && st0.nonce
            != Option::Some(nn2)));
    }

    // rewrite each balance whose newest daemon ciphertext differs
    proof {
        assert forall|j: int|
            0 <= j < list@.len() implies daemon.has_chain(#[trigger] list@[j]) by {}
    }
    let changed = apply_balances(storage, daemon, list, events);
    if changed {
        should_sync_blocks = true;
    }
    proof {
        // translate balance facts from the pre-balance state back to st0
        assert(st_nonce.balances == st0.balances && st_nonce.unconfirmed == st0.unconfirmed);
        lemma_same_balances(st_nonce, st0);
        lemma_same_unconf(st_nonce, st0);
        assert forall|a: u64|
            must_update(st_nonce, *daemon, a) == must_update(st0, *daemon, a) && (
            must_update(st0, *daemon, a) ==> new_value(st_nonce, *daemon, a) == new_value(
                st0,
                *daemon,
                a,
            )) by {}
        // asset knowledge is unchanged by nonce and balance writes
        assert(storage@.assets == st_assets.assets);
        lemma_same_assets(storage@, st_assets);
        assert forall|a: u64|
            storage@.has_asset(a) <==> (st0.has_asset(a) || list@.contains(a)) by {
            assert(st_assets.has_asset(a) <==> (st0.has_asset(a) || list@.contains(a)));
            assert(storage@.has_asset(a) == st_assets.has_asset(a));
        }
        assert forall|x: u64| #[trigger] st0.has_asset(x) implies storage@.asset_decimals(x)
            == st0.asset_decimals(x) by {
            assert(st_assets.has_asset(x));
            assert(st_assets.asset_decimals(x) == st0.asset_decimals(x));
            assert(storage@.asset_decimals(x) == st_assets.asset_decimals(x));
        }
        assert forall|x: u64|
            !st0.has_asset(x) && #[trigger] storage@.has_asset(x) implies storage@
            .asset_decimals(x) == daemon.asset_decimals(x) by {
            assert(st_assets.has_asset(x));
            assert(st_assets.asset_decimals(x) == daemon.asset_decimals(x));
            assert(storage@.asset_decimals(x) == st_assets.asset_decimals(x));
        }
        // announced discoveries and balance changes stay in the event list
        assert(ev_assets =~= events@.subrange(0, ev_assets.len() as int));
        assert forall|j: int|
            0 <= j < list@.len() && !st0.has_asset(#[trigger] list@[j])
                implies events@.contains(
            Event::NewAsset { asset: list@[j], decimals: daemon.asset_decimals(list@[j]) },
        ) by {
            let y = Event::NewAsset {
                asset: list@[j],
                decimals: daemon.asset_decimals(list@[j]),
            };
            assert(ev_assets.contains(y));
            let k = choose|k: int| 0 <= k < ev_assets.len() && ev_assets[k] == y;
            assert(events@[k] == y);
        }
        assert forall|j: int|
            0 <= j < list@.len() && must_update(st0, *daemon, #[trigger] list@[j])
                implies events@.contains(
            Event::BalanceChanged {
                asset: list@[j],
                balance: new_value(st0, *daemon, list@[j]),
            },
        ) by {
            assert(must_update(st_nonce, *daemon, list@[j]));
            assert(new_value(st_nonce, *daemon, list@[j]) == new_value(st0, *daemon, list@[j]));
        }
        // events: the old ones stay in place, the new ones are typed
        assert(ev0.is_prefix_of(events@)) by {
            assert forall|k: int| 0 <= k < ev0.len() implies events@[k] == ev0[k] by {
                assert(ev_assets[k] == ev0[k]);
            }
            assert(ev0 =~= events@.subrange(0, ev0.len() as int));
        }
        assert forall|k: int|
            ev0.len() <= k < events@.len() implies (#[trigger] events@[k] is NewAsset
                || events@[k] is BalanceChanged) by {
            if k < ev_assets.len() {
                assert(events@[k] == ev_assets[k]);
            }
        }
        // a reconciliation that changes nothing emits nothing
        if !should_sync_blocks && (forall|i2: int|
            0 <= i2 < list@.len() ==> st0.has_asset(#[trigger] list@[i2])) {
            assert(st_assets == st0 && ev_assets == ev0);
            assert(!nonce_changed);
            assert(st_nonce == st_assets);
            assert(!changed);
            assert(storage@ == st_nonce && events@ == ev_assets);
        }
    }
    Result::Ok(should_sync_blocks)
}

} // verus!
