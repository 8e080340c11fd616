//! Decisions of the token-distribution contract: the requests its run hands
//! to the host, the outcome checks after each host call, the distribution
//! plan over the shareholder manifest with its batching rule, and the owner
//! check guarding the secondary `send` entry point. The host calls themselves
//! are performed outside; every result comes back in as a plain value, with
//! `None` standing for a host-reported failure.
use vstd::prelude::*;
use vstd::utf8::{decode_utf8, valid_utf8};

use crate::manifest::parse_manifest;
use crate::manifest::sh_view;
use crate::manifest::Shareholder;
use crate::manifest::manifest_spec;
use crate::text::i64_le_bytes;
use crate::text::le_bytes_of_i64;
use crate::text::to_upper;
use crate::text::upper_of;
use crate::text::utf8_to_string;
use crate::Fault;
use crate::SUCCESS_THRESHOLD;

verus! {

/// How many transfers may accumulate before the batch is flushed.
pub const TRANSACTIONS_LIMIT: usize = 50;

/// Nonce under which the token is defined.
pub const MOSAIC_NONCE: u32 = 0;

/// Direction code of a supply increase.
pub const MOSAIC_INCREASE: u8 = 1;

/// Fixed number of units the freshly defined token is funded with.
pub const SUPPLY_DELTA: i64 = 9_000_000_000;

/// The token definition handed to the host: nonce 0 under the contract's own
/// identity, supply-mutable, transferable, zero divisibility, no optional
/// properties.
pub struct MosaicRequest {
    pub nonce: u32,
    pub owner_public_key: String,
    pub supply_mutable: bool,
    pub transferable: bool,
    pub divisibility: u8,
}

/// A supply adjustment handed to the host.
pub struct SupplyChangeRequest {
    pub asset_id: u64,
    pub supply_type: u8,
    pub delta: i64,
}

/// One transfer handed to the host.
pub struct TransferOrder {
    pub pub_key: String,
    pub amount: i64,
    pub asset_id: u64,
}

/// One step of the distribution run: submit a transfer, or flush the batch.
pub enum IcoStep {
    Transfer { address: String, amount: i64 },
    Flush,
}

/// The mathematical image of a step.
pub enum StepView {
    Transfer { address: Seq<char>, amount: i64 },
    Flush,
}

pub open spec fn step_view(s: IcoStep) -> StepView {
    match s {
        IcoStep::Transfer { address, amount } => StepView::Transfer { address: address@, amount },
        IcoStep::Flush => StepView::Flush,
    }
}

/// The distribution plan for the manifest records: one transfer per record in
/// file order, and a flush behind every `TRANSACTIONS_LIMIT`-th transfer.
pub open spec fn spec_plan(rows: Seq<(Seq<char>, Seq<char>, i64)>) -> Seq<StepView>
    decreases rows.len(),
{
    if rows.len() == 0 {
        Seq::empty()
    } else {
        let prefix = spec_plan(rows.drop_last());
        let r = rows.last();
        let with_transfer = prefix + seq![
            StepView::Transfer { address: r.1, amount: r.2 },
        ];
        if rows.len() % (TRANSACTIONS_LIMIT as nat) == 0 {
            with_transfer + seq![StepView::Flush]
        } else {
            with_transfer
        }
    }
}

/// Build the distribution plan for the parsed shareholder list.
pub fn distribution_plan(rows: &Vec<Shareholder>) -> (plan: Vec<IcoStep>)
    ensures
        plan@.map_values(|s: IcoStep| step_view(s)) == spec_plan(
            rows@.map_values(|s: Shareholder| sh_view(s)),
        ),
{
    let ghost views = rows@.map_values(|s: Shareholder| sh_view(s));
    let mut plan: Vec<IcoStep> = Vec::new();
    let mut i: usize = 0;
    proof {
        assert(plan@.map_values(|s: IcoStep| step_view(s)) =~= spec_plan(views.take(0)));
    }
    while i < rows.len()
        invariant
            0 <= i <= rows@.len(),
            views == rows@.map_values(|s: Shareholder| sh_view(s)),
            plan@.map_values(|s: IcoStep| step_view(s)) == spec_plan(views.take(i as int)),
        decreases rows@.len() - i,
    {
        let sh = &rows[i];
        let step = IcoStep::Transfer { address: sh.address.clone(), amount: sh.amount };
        let ghost plan_pre = plan@;
        plan.push(step);
        proof {
            assert(views.take(i as int + 1).drop_last() =~= views.take(i as int));
            assert(views.take(i as int + 1).last() == views[i as int]);
            assert(views[i as int] == sh_view(rows@[i as int]));
            assert(plan@.map_values(|s: IcoStep| step_view(s)) =~= plan_pre.map_values(
                |s: IcoStep| step_view(s),
            ) + seq![step_view(step)]);
        }
        if (i + 1) % TRANSACTIONS_LIMIT == 0 {
            let ghost plan_mid = plan@;
            plan.push(IcoStep::Flush);
            proof {
                assert(plan@.map_values(|s: IcoStep| step_view(s)) =~= plan_mid.map_values(
                    |s: IcoStep| step_view(s),
                ) + seq![StepView::Flush]);
                assert(plan@.map_values(|s: IcoStep| step_view(s)) =~= spec_plan(
                    views.take(i as int + 1),
                ));
            }
        } else {
            proof {
                assert(plan@.map_values(|s: IcoStep| step_view(s)) =~= spec_plan(
                    views.take(i as int + 1),
                ));
            }
        }
        i = i + 1;
    }
    proof {
        assert(views.take(views.len() as int) =~= views);
    }
    plan
}

/// The transfers of a plan, batching steps dropped.
pub open spec fn plan_transfers(plan: Seq<StepView>) -> Seq<StepView> {
    plan.filter(|s: StepView| s is Transfer)
}

/// Sum of the amounts of the manifest records.
pub open spec fn sum_amounts(rows: Seq<(Seq<char>, Seq<char>, i64)>) -> int
    decreases rows.len(),
{
    if rows.len() == 0 {
        0
    } else {
        sum_amounts(rows.drop_last()) + rows.last().2
    }
}

/// Sum of the amounts a plan transfers.
pub open spec fn sum_transferred(plan: Seq<StepView>) -> int
    decreases plan.len(),
{
    if plan.len() == 0 {
        0
    } else {
        sum_transferred(plan.drop_last()) + (match plan.last() {
            StepView::Transfer { address, amount } => amount as int,
            StepView::Flush => 0,
        })
    }
}

/// Number of flushes a plan issues.
pub open spec fn count_flushes(plan: Seq<StepView>) -> int
    decreases plan.len(),
{
    if plan.len() == 0 {
        0
    } else {
        count_flushes(plan.drop_last()) + (if plan.last() is Flush {
            1int
        } else {
            0int
        })
    }
}

proof fn lemma_sum_transferred_add(a: Seq<StepView>, b: Seq<StepView>)
    ensures
        sum_transferred(a + b) == sum_transferred(a) + sum_transferred(b),
    decreases b.len(),
{
    if b.len() == 0 {
        assert(a + b =~= a);
    } else {
        lemma_sum_transferred_add(a, b.drop_last());
        assert((a + b).drop_last() =~= a + b.drop_last());
        assert((a + b).last() == b.last());
    }
}

proof fn lemma_count_flushes_add(a: Seq<StepView>, b: Seq<StepView>)
    ensures
        count_flushes(a + b) == count_flushes(a) + count_flushes(b),
    decreases b.len(),
{
    if b.len() == 0 {
        assert(a + b =~= a);
    } else {
        lemma_count_flushes_add(a, b.drop_last());
        assert((a + b).drop_last() =~= a + b.drop_last());
        assert((a + b).last() == b.last());
    }
}

/// What the distribution plan hands out is exactly the manifest: one transfer
/// per record, in file order and with the record's own address and amount, so
/// the amounts transferred sum to the manifest's total.
pub proof fn lemma_plan_is_manifest(rows: Seq<(Seq<char>, Seq<char>, i64)>)
    ensures
        plan_transfers(spec_plan(rows)) == rows.map_values(
            |r: (Seq<char>, Seq<char>, i64)| StepView::Transfer { address: r.1, amount: r.2 },
        ),
        sum_transferred(spec_plan(rows)) == sum_amounts(rows),
    decreases rows.len(),
{
    broadcast use vstd::seq_lib::group_seq_properties;

    reveal(Seq::filter);
    let pred = |s: StepView| s is Transfer;
    if rows.len() == 0 {
        assert(spec_plan(rows).filter(pred) =~= Seq::<StepView>::empty());
        assert(rows.map_values(
            |r: (Seq<char>, Seq<char>, i64)| StepView::Transfer { address: r.1, amount: r.2 },
        ) =~= Seq::<StepView>::empty());
    } else {
        lemma_plan_is_manifest(rows.drop_last());
        let prefix = spec_plan(rows.drop_last());
        let r = rows.last();
        let t = seq![StepView::Transfer { address: r.1, amount: r.2 }];
        let with_transfer = prefix + t;
        Seq::filter_distributes_over_add(prefix, t, pred);
        assert(t.filter(pred) =~= t) by {
            assert(t.drop_last() =~= Seq::<StepView>::empty());
            assert(Seq::<StepView>::empty().filter(pred) =~= Seq::<StepView>::empty());
        }
        lemma_sum_transferred_add(prefix, t);
        assert(sum_transferred(t) == r.2) by {
            assert(t.drop_last() =~= Seq::<StepView>::empty());
            assert(sum_transferred(Seq::<StepView>::empty()) == 0);
        }
        let f = seq![StepView::Flush];
        if rows.len() % (TRANSACTIONS_LIMIT as nat) == 0 {
            Seq::filter_distributes_over_add(with_transfer, f, pred);
            assert(f.filter(pred) =~= Seq::<StepView>::empty()) by {
                assert(f.drop_last() =~= Seq::<StepView>::empty());
                assert(Seq::<StepView>::empty().filter(pred) =~= Seq::<StepView>::empty());
            }
            assert(spec_plan(rows).filter(pred) =~= with_transfer.filter(pred));
            lemma_sum_transferred_add(with_transfer, f);
            assert(sum_transferred(f) == 0) by {
                assert(f.drop_last() =~= Seq::<StepView>::empty());
                assert(sum_transferred(Seq::<StepView>::empty()) == 0);
            }
        }
        assert(prefix.filter(pred) + t =~= rows.map_values(
            |rr: (Seq<char>, Seq<char>, i64)| StepView::Transfer { address: rr.1, amount: rr.2 },
        ));
    }
}

/// The batching rule: a manifest of `n` records makes the plan flush exactly
/// `n / TRANSACTIONS_LIMIT` times, once behind every full batch.
pub proof fn lemma_plan_flush_count(rows: Seq<(Seq<char>, Seq<char>, i64)>)
    ensures
        count_flushes(spec_plan(rows)) == rows.len() / (TRANSACTIONS_LIMIT as nat),
    decreases rows.len(),
{
    let lim = TRANSACTIONS_LIMIT as nat;
    if rows.len() == 0 {
    } else {
        lemma_plan_flush_count(rows.drop_last());
        let prefix = spec_plan(rows.drop_last());
        let r = rows.last();
        let t = seq![StepView::Transfer { address: r.1, amount: r.2 }];
        let f = seq![StepView::Flush];
        lemma_count_flushes_add(prefix, t);
        assert(count_flushes(t) == 0) by {
            assert(t.drop_last() =~= Seq::<StepView>::empty());
            assert(count_flushes(Seq::<StepView>::empty()) == 0);
        }
        if rows.len() % lim == 0 {
            lemma_count_flushes_add(prefix + t, f);
            assert(count_flushes(f) == 1) by {
                assert(f.drop_last() =~= Seq::<StepView>::empty());
                assert(count_flushes(Seq::<StepView>::empty()) == 0);
            }
        }
        let n = rows.len() as int;
        assert(n >= 1);
        let q = (n - 1) / 50;
        let rem = (n - 1) % 50;
        vstd::arithmetic::div_mod::lemma_fundamental_div_mod(n - 1, 50);
        vstd::arithmetic::div_mod::lemma_mod_bound(n - 1, 50);
        assert(n == q * 50 + (rem + 1));
        if rem + 1 < 50 {
            vstd::arithmetic::div_mod::lemma_fundamental_div_mod_converse_div(n, 50, q, rem + 1);
            vstd::arithmetic::div_mod::lemma_fundamental_div_mod_converse_mod(n, 50, q, rem + 1);
        } else {
            assert(n == (q + 1) * 50 + 0) by (nonlinear_arith)
                requires
                    n == q * 50 + rem + 1,
                    rem + 1 == 50,
            ;
            vstd::arithmetic::div_mod::lemma_fundamental_div_mod_converse_div(n, 50, q + 1, 0);
            vstd::arithmetic::div_mod::lemma_fundamental_div_mod_converse_mod(n, 50, q + 1, 0);
        }
        assert((n - 1) / 50 + (if n % 50 == 0 {
            1int
        } else {
            0int
        }) == n / 50);
    }
}

/// The token definition for the contract identity the host reported; a
/// missing identity fails the run.
pub fn mosaic_request(sc_id: Option<String>) -> (r: Result<MosaicRequest, Fault>)
    ensures
        (match r {
            Ok(m) => {
                &&& sc_id matches Some(id) && m.owner_public_key@ == id@
                &&& m.nonce == MOSAIC_NONCE
                &&& m.supply_mutable
                &&& m.transferable
                &&& m.divisibility == 0
            },
            Err(f) => f == Fault::HostLookupFailed && sc_id is None,
        }),
{
    match sc_id {
        Some(id) => Ok(
            MosaicRequest {
                nonce: MOSAIC_NONCE,
                owner_public_key: id,
                supply_mutable: true,
                transferable: true,
                divisibility: 0,
            },
        ),
        None => Err(Fault::HostLookupFailed),
    }
}

/// The outcome of the token definition call: failing, or reporting a status
/// below the success threshold, fails the run.
pub fn definition_outcome(status: Option<i64>) -> (r: Result<(), Fault>)
    ensures
        (match r {
            Ok(u) => status matches Some(s) && s >= SUCCESS_THRESHOLD,
            Err(f) => f == Fault::MosaicCreationFailed && (status is None || status->0
                < SUCCESS_THRESHOLD),
        }),
{
    match status {
        Some(s) => {
            if s < SUCCESS_THRESHOLD {
                Err(Fault::MosaicCreationFailed)
            } else {
                Ok(())
            }
        },
        None => Err(Fault::MosaicCreationFailed),
    }
}

/// The outcome of a flush call.
pub fn flush_outcome(status: Option<i64>) -> (r: Result<(), Fault>)
    ensures
        (match r {
            Ok(u) => status is Some,
            Err(f) => f == Fault::FlushFailed && status is None,
        }),
{
    match status {
        Some(s) => Ok(()),
        None => Err(Fault::FlushFailed),
    }
}

/// The outcome of resolving the deterministic token identifier.
pub fn mosaic_id_outcome(id: Option<u64>) -> (r: Result<u64, Fault>)
    ensures
        (match r {
            Ok(m) => id == Some(m),
            Err(f) => f == Fault::MosaicIdLookupFailed && id is None,
        }),
{
    match id {
        Some(m) => Ok(m),
        None => Err(Fault::MosaicIdLookupFailed),
    }
}

/// The fixed supply increase for the freshly defined token.
pub fn supply_change_request(mosaic_id: u64) -> (r: SupplyChangeRequest)
    ensures
        r.asset_id == mosaic_id,
        r.supply_type == MOSAIC_INCREASE,
        r.delta == SUPPLY_DELTA,
{
    SupplyChangeRequest { asset_id: mosaic_id, supply_type: MOSAIC_INCREASE, delta: SUPPLY_DELTA }
}

/// The outcome of the supply change call.
pub fn supply_outcome(status: Option<i64>) -> (r: Result<(), Fault>)
    ensures
        (match r {
            Ok(u) => status is Some,
            Err(f) => f == Fault::SupplyChangeFailed && status is None,
        }),
{
    match status {
        Some(s) => Ok(()),
        None => Err(Fault::SupplyChangeFailed),
    }
}

/// The manifest as loaded from storage: a missing file fails the run, and a
/// malformed file rejects it whole.
pub fn manifest_outcome(data: Option<Vec<u8>>) -> (r: Result<Vec<Shareholder>, Fault>)
    ensures
        (match r {
            Ok(v) => data matches Some(d) && manifest_spec(d@) == Some(
                v@.map_values(|s: Shareholder| sh_view(s)),
            ),
            Err(f) => {
                ||| (f == Fault::ManifestLoadFailed && data is None)
                ||| (f == Fault::ManifestParseFailed && (data matches Some(d) && manifest_spec(d@)
                    is None))
            },
        }),
{
    match data {
        Some(d) => parse_manifest(d.as_slice()),
        None => Err(Fault::ManifestLoadFailed),
    }
}

/// The outcome of one submitted transfer: any failure aborts the whole run.
pub fn transfer_outcome(status: Option<i64>) -> (r: Result<(), Fault>)
    ensures
        (match r {
            Ok(u) => status is Some,
            Err(f) => f == Fault::TransferFailed && status is None,
        }),
{
    match status {
        Some(s) => Ok(()),
        None => Err(Fault::TransferFailed),
    }
}

/// The record persisted under the `ico_info.json` storage key so a later call
/// can recover the token identifier without recomputation.
pub struct IcoInfo {
    pub supercontract_id: String,
    pub mosaic_id: u64,
}

/// The persisted record for a finished definition run.
pub fn ico_info_record(supercontract_id: String, mosaic_id: u64) -> (r: IcoInfo)
    ensures
        r.supercontract_id@ == supercontract_id@,
        r.mosaic_id == mosaic_id,
{
    IcoInfo { supercontract_id, mosaic_id }
}

/// The outcome of a storage write: a failed write fails the run.
pub fn persist_outcome(status: Option<i64>) -> (r: Result<(), Fault>)
    ensures
        (match r {
            Ok(u) => status is Some,
            Err(f) => f == Fault::PersistFailed && status is None,
        }),
{
    match status {
        Some(s) => Ok(()),
        None => Err(Fault::PersistFailed),
    }
}

/// The destination address `send` receives, as the concatenated little-endian
/// byte images of its five packed words.
pub open spec fn packed_address_bytes(w1: i64, w2: i64, w3: i64, w4: i64, w5: i64) -> Seq<u8> {
    i64_le_bytes(w1) + i64_le_bytes(w2) + i64_le_bytes(w3) + i64_le_bytes(w4) + i64_le_bytes(w5)
}

/// Reassemble the five packed words of `send` into the destination address;
/// bytes that are not UTF-8 fail the call.
pub fn decode_packed_address(w1: i64, w2: i64, w3: i64, w4: i64, w5: i64) -> (r: Option<String>)
    ensures
        (match r {
            Some(s) => valid_utf8(packed_address_bytes(w1, w2, w3, w4, w5)) && s@ == decode_utf8(
                packed_address_bytes(w1, w2, w3, w4, w5),
            ),
            None => !valid_utf8(packed_address_bytes(w1, w2, w3, w4, w5)),
        }),
{
    let mut bytes = le_bytes_of_i64(w1);
    let mut p2 = le_bytes_of_i64(w2);
    let mut p3 = le_bytes_of_i64(w3);
    let mut p4 = le_bytes_of_i64(w4);
    let mut p5 = le_bytes_of_i64(w5);
    bytes.append(&mut p2);
    bytes.append(&mut p3);
    bytes.append(&mut p4);
    bytes.append(&mut p5);
    proof {
        assert(bytes@ =~= packed_address_bytes(w1, w2, w3, w4, w5));
    }
    utf8_to_string(bytes.as_slice())
}

/// Whether the calling identity is the drive owner; the comparison ignores
/// letter case.
pub fn authorize_send(caller: &str, owner: &str) -> (r: bool)
    ensures
        r == (upper_of(caller@) == upper_of(owner@)),
{
    let cu = to_upper(caller);
    let ou = to_upper(owner);
    cu == ou
}

/// Decide the `send` entry point up to the token lookup: the caller identity,
/// the packed destination address and the contract record must all be there,
/// and only the drive owner's identity may send. Returns the decoded
/// destination and the identity the token is resolved under.
pub fn send_authorize(
    caller: Option<String>,
    w1: i64,
    w2: i64,
    w3: i64,
    w4: i64,
    w5: i64,
    sc: Option<(String, String)>,
) -> (r: Result<(String, String), Fault>)
    ensures
        (match r {
            Ok(p) => {
                &&& caller matches Some(c)
                &&& valid_utf8(packed_address_bytes(w1, w2, w3, w4, w5))
                &&& p.0@ == decode_utf8(packed_address_bytes(w1, w2, w3, w4, w5))
                &&& sc matches Some(pair) && p.1@ == pair.0@ && upper_of(c@) == upper_of(pair.1@)
            },
            Err(f) => {
                if caller is None {
                    f == Fault::CallerLookupFailed
                } else if !valid_utf8(packed_address_bytes(w1, w2, w3, w4, w5)) {
                    f == Fault::AddressDecodeFailed
                } else if sc is None {
                    f == Fault::HostLookupFailed
                } else {
                    f == Fault::NotOwner && (caller matches Some(c) && (sc matches Some(pair)
                        && upper_of(c@) != upper_of(pair.1@)))
                }
            },
        }),
{
    let c = match caller {
        Some(c) => c,
        None => {
            return Err(Fault::CallerLookupFailed);
        },
    };
    let address = match decode_packed_address(w1, w2, w3, w4, w5) {
        Some(a) => a,
        None => {
            return Err(Fault::AddressDecodeFailed);
        },
    };
    let (sc_id, drive_owner) = match sc {
        Some(pair) => pair,
        None => {
            return Err(Fault::HostLookupFailed);
        },
    };
    if !authorize_send(c.as_str(), drive_owner.as_str()) {
        return Err(Fault::NotOwner);
    }
    Ok((address, sc_id))
}

/// The transfer `send` submits once the token identifier is resolved.
pub fn send_transfer_order(address: String, amount: i64, mosaic_id: Option<u64>) -> (r: Result<
    TransferOrder,
    Fault,
>)
    ensures
        (match r {
            Ok(t) => {
                &&& mosaic_id == Some(t.asset_id)
                &&& t.pub_key@ == address@
                &&& t.amount == amount
            },
            Err(f) => f == Fault::MosaicIdLookupFailed && mosaic_id is None,
        }),
{
    match mosaic_id {
        Some(m) => Ok(TransferOrder { pub_key: address, amount, asset_id: m }),
        None => Err(Fault::MosaicIdLookupFailed),
    }
}

} // verus!
