use supercontracts::ico::{
    decode_packed_address, definition_outcome, distribution_plan, manifest_outcome,
    mosaic_id_outcome, mosaic_request, send_authorize, send_transfer_order,
    supply_change_request, IcoStep,
};
use supercontracts::manifest::Shareholder;
use supercontracts::Fault;

fn holders(n: usize) -> Vec<Shareholder> {
    (0..n)
        .map(|i| Shareholder {
            name: format!("holder{}", i),
            address: format!("ADDR{}", i),
            amount: (i + 1) as i64,
        })
        .collect()
}

#[test]
fn plan_of_a_short_list_has_no_flush() {
    let plan = distribution_plan(&holders(3));
    assert_eq!(plan.len(), 3);
    for (i, step) in plan.iter().enumerate() {
        match step {
            IcoStep::Transfer { address, amount } => {
                assert_eq!(address, &format!("ADDR{}", i));
                assert_eq!(*amount, (i + 1) as i64);
            }
            IcoStep::Flush => panic!("no flush expected under the batch limit"),
        }
    }
}

#[test]
fn plan_transfers_in_file_order_and_sum_matches() {
    let rows = holders(120);
    let expected_sum: i64 = rows.iter().map(|s| s.amount).sum();
    let plan = distribution_plan(&rows);
    let mut sum = 0i64;
    let mut transfers = 0usize;
    for step in &plan {
        if let IcoStep::Transfer { address, amount } = step {
            assert_eq!(address, &format!("ADDR{}", transfers));
            sum += amount;
            transfers += 1;
        }
    }
    assert_eq!(transfers, 120);
    assert_eq!(sum, expected_sum);
}

#[test]
fn plan_flushes_after_every_fiftieth_transfer() {
    let plan = distribution_plan(&holders(120));
    // 120 transfers plus one flush behind the 50th and one behind the 100th.
    assert_eq!(plan.len(), 122);
    let flushes: Vec<usize> = plan
        .iter()
        .enumerate()
        .filter(|(_, s)| matches!(s, IcoStep::Flush))
        .map(|(i, _)| i)
        .collect();
    assert_eq!(flushes, vec![50, 101]);
    let plan = distribution_plan(&holders(50));
    assert_eq!(plan.len(), 51);
    assert!(matches!(plan[50], IcoStep::Flush));
}

#[test]
fn mosaic_request_uses_the_contract_identity() {
    let m = mosaic_request(Some("SCID".to_string())).unwrap();
    assert_eq!(m.owner_public_key, "SCID");
    assert_eq!(m.nonce, 0);
    assert!(m.supply_mutable);
    assert!(m.transferable);
    assert_eq!(m.divisibility, 0);
    assert!(matches!(mosaic_request(None), Err(Fault::HostLookupFailed)));
}

#[test]
fn definition_outcome_applies_the_success_threshold() {
    assert!(definition_outcome(Some(0)).is_ok());
    assert!(definition_outcome(Some(7)).is_ok());
    assert!(matches!(
        definition_outcome(Some(-1)),
        Err(Fault::MosaicCreationFailed)
    ));
    assert!(matches!(
        definition_outcome(None),
        Err(Fault::MosaicCreationFailed)
    ));
}

#[test]
fn supply_change_is_the_fixed_increase() {
    let c = supply_change_request(42);
    assert_eq!(c.asset_id, 42);
    assert_eq!(c.supply_type, 1);
    assert_eq!(c.delta, 9_000_000_000);
}

#[test]
fn missing_manifest_fails_the_load() {
    assert!(matches!(
        manifest_outcome(None),
        Err(Fault::ManifestLoadFailed)
    ));
    let data = b"Name,Shareholder account address,Amount\nAlice,VDDQ4A,100\n".to_vec();
    assert_eq!(manifest_outcome(Some(data)).unwrap().len(), 1);
}

fn pack(address: &[u8; 40]) -> [i64; 5] {
    let mut words = [0i64; 5];
    for (i, w) in words.iter_mut().enumerate() {
        let mut bytes = [0u8; 8];
        bytes.copy_from_slice(&address[i * 8..i * 8 + 8]);
        *w = i64::from_le_bytes(bytes);
    }
    words
}

#[test]
fn packed_address_round_trips_through_the_words() {
    let address = b"VDDQ4AHHPN7A4B3C5D6E7F8G9H0J1K2L3M4N5P6Q";
    let [w1, w2, w3, w4, w5] = pack(address);
    let decoded = decode_packed_address(w1, w2, w3, w4, w5).unwrap();
    assert_eq!(decoded.as_bytes(), address);
}

#[test]
fn packed_words_that_are_not_utf8_fail_the_decode() {
    let r = decode_packed_address(-1, -1, -1, -1, -1);
    assert!(r.is_none());
}

#[test]
fn send_is_allowed_only_for_the_owner() {
    let address = b"VDDQ4AHHPN7A4B3C5D6E7F8G9H0J1K2L3M4N5P6Q";
    let [w1, w2, w3, w4, w5] = pack(address);
    let sc = Some(("SCID".to_string(), "OwnerKey".to_string()));
    let r = send_authorize(Some("Impostor".to_string()), w1, w2, w3, w4, w5, sc);
    assert!(matches!(r, Err(Fault::NotOwner)));
}

#[test]
fn owner_check_ignores_letter_case() {
    let address = b"VDDQ4AHHPN7A4B3C5D6E7F8G9H0J1K2L3M4N5P6Q";
    let [w1, w2, w3, w4, w5] = pack(address);
    let sc = Some(("SCID".to_string(), "ownerKEY".to_string()));
    let (dest, owner_pk) =
        send_authorize(Some("OWNERkey".to_string()), w1, w2, w3, w4, w5, sc).unwrap();
    assert_eq!(dest.as_bytes(), address);
    assert_eq!(owner_pk, "SCID");
}

#[test]
fn send_fails_without_caller_or_contract() {
    let r = send_authorize(None, 0, 0, 0, 0, 0, Some(("a".into(), "b".into())));
    assert!(matches!(r, Err(Fault::CallerLookupFailed)));
    let address = b"VDDQ4AHHPN7A4B3C5D6E7F8G9H0J1K2L3M4N5P6Q";
    let [w1, w2, w3, w4, w5] = pack(address);
    let r = send_authorize(Some("k".to_string()), w1, w2, w3, w4, w5, None);
    assert!(matches!(r, Err(Fault::HostLookupFailed)));
}

#[test]
fn transfer_order_carries_the_resolved_token() {
    let t = send_transfer_order("DEST".to_string(), 12, Some(99)).unwrap();
    assert_eq!(t.pub_key, "DEST");
    assert_eq!(t.amount, 12);
    assert_eq!(t.asset_id, 99);
    assert!(matches!(
        send_transfer_order("DEST".to_string(), 12, None),
        Err(Fault::MosaicIdLookupFailed)
    ));
    assert!(matches!(mosaic_id_outcome(None), Err(Fault::MosaicIdLookupFailed)));
    assert_eq!(mosaic_id_outcome(Some(5)).unwrap(), 5);
}
