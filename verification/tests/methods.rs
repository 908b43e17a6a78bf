use std::cell::Cell;
use std::sync::Arc;
use subtensor_custom_rpc::custom::SubtensorCustom;
use subtensor_custom_rpc::error::Error;
use subtensor_custom_rpc::request::{
    block, pinned, pinned_request, report, serve_cached, serve_cached_at, serve_direct, to_reply,
    CachedRequest, DirectRequest, Failure,
};
use subtensor_custom_rpc::rpc_cache::{stats, ResultCache};
use subtensor_custom_rpc::runtime_call::{AmountCall, RuntimeCall, SubnetCall};
use subtensor_custom_rpc::types::{AccountId32, MechId, NetUid};

use jsonrpsee::types::ErrorObjectOwned;

fn custom() -> SubtensorCustom<u8, ()> {
    SubtensorCustom::new(Arc::new(3))
}

fn account(first: u8) -> AccountId32 {
    let mut bytes = [0u8; 32];
    for (i, b) in bytes.iter_mut().enumerate() {
        *b = first.wrapping_add(i as u8);
    }
    AccountId32(bytes)
}

fn check(request: CachedRequest, call: RuntimeCall, name: &str, params: Vec<u8>, failure: &'static str) {
    assert_eq!(request.call, call);
    assert_eq!(request.key.call, name);
    assert_eq!(request.key.params, params);
    assert_eq!(request.key.at, vec![0xaa]);
    assert_eq!(request.failure, Failure::Described(failure));
}

fn check_direct<Q>(request: DirectRequest<Q>, call: Q, failure: &'static str)
where
    Q: std::fmt::Debug + PartialEq,
{
    assert_eq!(request, DirectRequest { call, failure: Failure::Described(failure) });
}

#[test]
fn the_client_is_kept() {
    assert_eq!(**custom().client(), 3);
}

#[test]
fn methods_without_parameters_have_an_empty_encoding() {
    let c = custom();
    let at = || vec![0xaau8];
    check(c.get_delegates(at()), RuntimeCall::GetDelegates, "get_delegates", vec![], "Unable to get delegates info: ");
    check(
        c.get_all_dynamic_info(at()),
        RuntimeCall::GetAllDynamicInfo,
        "get_all_dynamic_info",
        vec![],
        "Unable to get dynamic subnets info: ",
    );
    check(
        c.get_all_metagraphs(at()),
        RuntimeCall::GetAllMetagraphs,
        "get_all_metagraphs",
        vec![],
        "Unable to get metagraps: ",
    );
    check(
        c.get_all_mechagraphs(at()),
        RuntimeCall::GetAllMechagraphs,
        "get_all_mechagraphs",
        vec![],
        "Unable to get metagraps: ",
    );
    check(
        c.get_subnets_info(at()),
        RuntimeCall::GetSubnetsInfo,
        "get_subnets_info",
        vec![],
        "Unable to get subnets info: ",
    );
    check(
        c.get_subnets_info_v2(at()),
        RuntimeCall::GetSubnetsInfoV2,
        "get_subnets_info_v2",
        vec![],
        "Unable to get subnets info: ",
    );
    check(
        c.get_all_validator_baskets(at()),
        RuntimeCall::GetAllValidatorBaskets,
        "get_all_validator_baskets",
        vec![],
        "Unable to get all validator baskets: ",
    );
}

#[test]
fn a_subnet_is_encoded_least_significant_byte_first() {
    let c = custom();
    let at = || vec![0xaau8];
    let netuid = NetUid(0x0102);
    let p = || vec![2u8, 1];
    check(
        c.get_neurons_lite(netuid, at()),
        RuntimeCall::GetNeuronsLite { netuid },
        "get_neurons_lite",
        p(),
        "Unable to get neurons lite info: ",
    );
    check(
        c.get_neurons(netuid, at()),
        RuntimeCall::GetNeurons { netuid },
        "get_neurons",
        p(),
        "Unable to get neurons info: ",
    );
    check(
        c.get_subnet_hyperparams(netuid, at()),
        RuntimeCall::GetSubnetHyperparams { netuid },
        "get_subnet_hyperparams",
        p(),
        "Unable to get subnet info: ",
    );
    check(
        c.get_subnet_hyperparams_v2(netuid, at()),
        RuntimeCall::GetSubnetHyperparamsV2 { netuid },
        "get_subnet_hyperparams_v2",
        p(),
        "Unable to get subnet info: ",
    );
    check(
        c.get_dynamic_info(netuid, at()),
        RuntimeCall::GetDynamicInfo { netuid },
        "get_dynamic_info",
        p(),
        "Unable to get dynamic subnets info: ",
    );
    check(
        c.get_metagraph(netuid, at()),
        RuntimeCall::GetMetagraph { netuid },
        "get_metagraph",
        p(),
        "Unable to get dynamic subnets info: ",
    );
    check(
        c.get_subnet_state(netuid, at()),
        RuntimeCall::GetSubnetState { netuid },
        "get_subnet_state",
        p(),
        "Unable to get subnet state info: ",
    );
}

#[test]
fn several_parameters_are_encoded_one_after_the_other() {
    let c = custom();
    let at = || vec![0xaau8];
    let netuid = NetUid(0x0102);
    check(
        c.get_neuron_lite(netuid, 0x0304, at()),
        RuntimeCall::GetNeuronLite { netuid, uid: 0x0304 },
        "get_neuron_lite",
        vec![2, 1, 4, 3],
        "Unable to get neurons lite info: ",
    );
    check(
        c.get_neuron(netuid, 0x0304, at()),
        RuntimeCall::GetNeuron { netuid, uid: 0x0304 },
        "get_neuron",
        vec![2, 1, 4, 3],
        "Unable to get neuron info: ",
    );
    check(
        c.get_mechagraph(netuid, MechId(5), at()),
        RuntimeCall::GetMechagraph { netuid, mecid: MechId(5) },
        "get_mechagraph",
        vec![2, 1, 5],
        "Unable to get dynamic subnets info: ",
    );
    check(
        c.get_selective_metagraph(netuid, vec![0x0708, 9], at()),
        RuntimeCall::GetSelectiveMetagraph { netuid, metagraph_index: vec![0x0708, 9] },
        "get_selective_metagraph",
        vec![2, 1, 8, 8, 7, 9, 0],
        "Unable to get selective metagraph: ",
    );
    check(
        c.get_selective_mechagraph(netuid, MechId(5), vec![], at()),
        RuntimeCall::GetSelectiveMechagraph { netuid, mecid: MechId(5), metagraph_index: vec![] },
        "get_selective_mechagraph",
        vec![2, 1, 5, 0],
        "Unable to get selective metagraph: ",
    );
    check(
        c.get_validator_basket(account(7), at()),
        RuntimeCall::GetValidatorBasket { hotkey: account(7) },
        "get_validator_basket",
        account(7).0.to_vec(),
        "Unable to get validator basket: ",
    );
}

#[test]
fn the_length_of_a_list_is_compact() {
    let c = custom();
    let lead = |n: usize| {
        let params = c.get_selective_metagraph(NetUid(0), vec![0; n], vec![]).key.params;
        assert_eq!(&params[..2], &[0, 0]);
        params[2..params.len() - 2 * n].to_vec()
    };
    assert_eq!(lead(63), vec![0xfc]);
    assert_eq!(lead(64), vec![0x01, 0x01]);
    assert_eq!(lead(16383), vec![0xfd, 0xff]);
    assert_eq!(lead(16384), vec![0x02, 0x00, 0x01, 0x00]);
}

#[test]
fn requests_that_are_not_cached() {
    let c = custom();
    let netuid = NetUid(4);
    let (coldkey, hotkey) = (account(1), account(2));
    check_direct(c.get_subnet_info(netuid), RuntimeCall::GetSubnetInfo { netuid }, "Unable to get subnet info: ");
    check_direct(
        c.get_subnet_info_v2(netuid),
        RuntimeCall::GetSubnetInfoV2 { netuid },
        "Unable to get subnet info: ",
    );
    check_direct(c.get_block_emission(), AmountCall::GetBlockEmission, "Unable to get block emission: ");
    check_direct(
        c.get_network_lock_cost(),
        AmountCall::GetNetworkRegistrationCost,
        "Unable to get subnet lock cost: ",
    );
    check_direct(
        c.get_coldkey_auto_stake_hotkey(coldkey, netuid),
        RuntimeCall::GetColdkeyAutoStakeHotkey { coldkey, netuid },
        "Unable to get coldkey auto stake hotkey: ",
    );
    check_direct(c.get_subnet_to_prune(), SubnetCall::GetSubnetToPrune, "Unable to get subnet to prune: ");
    check_direct(
        c.get_coldkey_lock(coldkey, netuid),
        RuntimeCall::GetColdkeyLock { coldkey, netuid },
        "Unable to get coldkey lock: ",
    );
    check_direct(
        c.get_root_basket_owed(coldkey),
        AmountCall::GetRootBasketOwed { coldkey },
        "Unable to get root basket owed: ",
    );
    check_direct(
        c.get_basket_payout(hotkey, coldkey),
        AmountCall::GetBasketPayout { hotkey, coldkey },
        "Unable to get staker validator owed: ",
    );
    check_direct(
        c.get_validator_basket_nav(hotkey),
        AmountCall::GetValidatorBasketNav { hotkey },
        "Unable to get validator basket NAV: ",
    );
    check_direct(
        c.get_root_basket_total_nav(),
        AmountCall::GetRootBasketTotalNav,
        "Unable to get total basket NAV: ",
    );
    check_direct(
        c.get_validator_basket_summary(hotkey),
        RuntimeCall::GetValidatorBasketSummary { hotkey },
        "Unable to get validator basket summary: ",
    );
    check_direct(
        c.get_root_basket_positions(coldkey),
        RuntimeCall::GetRootBasketPositions { coldkey },
        "Unable to get root basket positions: ",
    );
}

#[test]
fn an_account_is_decoded_from_its_first_bytes() {
    let c = custom();
    let mut bytes = account(9).0.to_vec();
    check_direct(
        c.get_delegate(bytes.clone()).unwrap(),
        RuntimeCall::GetDelegate { account: account(9) },
        "Unable to get delegates info: ",
    );
    bytes.push(1);
    check_direct(
        c.get_delegated(bytes).unwrap(),
        RuntimeCall::GetDelegated { account: account(9) },
        "Unable to get delegates info: ",
    );
}

#[test]
fn too_few_bytes_are_no_account() {
    let c = custom();
    for refused in [c.get_delegate(vec![1; 31]).unwrap_err(), c.get_delegated(vec![]).unwrap_err()] {
        assert_eq!(refused.code(), 1);
        assert!(refused.message().starts_with("Unable to get delegates info: Error"));
        assert!(refused.message().contains("Not enough data to fill buffer"));
        assert!(refused.data().is_none());
    }
}

#[test]
fn a_missing_subnet_has_one_report() {
    let request = custom().get_subnet_account_id(NetUid(4));
    assert_eq!(request.call, RuntimeCall::GetSubnetAccountId { netuid: NetUid(4) });
    let reply: Result<(), ErrorObjectOwned> = serve_direct(request, 0u8, |_, _| Err("anything".to_string()));
    assert_eq!(reply.unwrap_err().message(), "Subnet does not exist");
}

#[test]
fn a_result_passes_through() {
    let reply = serve_direct(custom().get_subnet_to_prune(), 8u64, |at, call| {
        assert_eq!(at, 8);
        assert_eq!(call, SubnetCall::GetSubnetToPrune);
        Ok(Some(5u16))
    });
    assert_eq!(reply.unwrap(), Some(5));
}

#[test]
fn a_failure_is_reported_with_its_words() {
    let reply: Result<u64, ErrorObjectOwned> =
        serve_direct(custom().get_network_lock_cost(), 8u64, |_, _| Err("UnknownBlock".to_string()));
    let refused = reply.unwrap_err();
    assert_eq!(refused.code(), 1);
    assert_eq!(refused.message(), "Unable to get subnet lock cost: UnknownBlock");
    assert!(refused.data().is_none());
}

#[test]
fn a_cached_request_calls_the_runtime_once() {
    let mut cache = ResultCache::new(1000);
    let runs = Cell::new(0);
    for _ in 0..2 {
        let reply = serve_cached(&mut cache, custom().get_neuron(NetUid(1), 2, vec![3]), 3u8, |at, call| {
            assert_eq!(at, 3);
            assert_eq!(call, RuntimeCall::GetNeuron { netuid: NetUid(1), uid: 2 });
            runs.set(runs.get() + 1);
            Ok(vec![6, 6])
        });
        assert_eq!(reply.unwrap(), vec![6, 6]);
    }
    assert_eq!(runs.get(), 1);
    assert_eq!(stats(&cache), (1, 1));
}

#[test]
fn a_reply_does_not_depend_on_the_cache() {
    let says = |netuid: u16, at: u8| match netuid {
        0 => Err(format!("no subnet at {at}")),
        _ => Ok(vec![netuid as u8, at]),
    };
    for budget in [0, 1, 100] {
        let mut cache = ResultCache::new(budget);
        for _ in 0..2 {
            for (netuid, at) in [(0, 1), (0, 2), (7, 1), (7, 2), (8, 1)] {
                let request = custom().get_metagraph(NetUid(netuid), vec![at]);
                let reply = serve_cached(&mut cache, request, at, |at, call| match call {
                    RuntimeCall::GetMetagraph { netuid } => says(netuid.0, at),
                    _ => panic!("the call is for a metagraph"),
                });
                match says(netuid, at) {
                    Ok(bytes) => assert_eq!(reply.unwrap(), bytes),
                    Err(detail) => assert_eq!(
                        reply.unwrap_err().message(),
                        format!("Unable to get dynamic subnets info: {detail}"),
                    ),
                }
            }
        }
    }
}

#[test]
fn a_cached_failure_is_reported_alike() {
    let mut cache = ResultCache::new(1000);
    let request = || custom().get_metagraph(NetUid(1), vec![3]);
    let first = serve_cached(&mut cache, request(), (), |_, _| Err("Trap".to_string())).unwrap_err();
    let second = serve_cached(&mut cache, request(), (), |_, _| Ok(vec![])).unwrap_err();
    assert_eq!(first.message(), "Unable to get dynamic subnets info: Trap");
    assert_eq!(second.message(), first.message());
    assert_eq!(second.code(), 1);
}

#[test]
fn an_error_converts_to_its_code_and_its_object() {
    assert_eq!(i32::from(Error::RuntimeError("x".to_string())), 1);
    let object = ErrorObjectOwned::from(Error::RuntimeError("x".to_string()));
    assert_eq!((object.code(), object.message()), (1, "x"));
}

#[test]
fn reports_and_replies() {
    let described = Failure::Described("It failed: ");
    assert_eq!(report::<u8>(&described, Err("why".to_string())), Err("It failed: why".to_string()));
    assert_eq!(report(&described, Ok(1)), Ok(1));
    assert_eq!(report::<u8>(&Failure::Fixed("Gone"), Err("why".to_string())), Err("Gone".to_string()));
    assert_eq!(to_reply(Ok(3)).unwrap(), 3);
    assert_eq!(to_reply::<u8>(Err("m".to_string())).unwrap_err().message(), "m");
}

#[test]
fn the_best_block_is_asked_for_only_without_a_block() {
    assert_eq!(block(Some(4), || panic!("not asked for")), 4);
    assert_eq!(block(None, || 5), 5);
}

#[test]
fn the_key_pins_the_block_that_is_handed_out() {
    let encode = |hash: &u16| hash.to_le_bytes().to_vec();
    assert_eq!(pinned(Some(0x0102), || panic!("not asked for"), encode), (0x0102, vec![2, 1]));
    assert_eq!(pinned(None, || 0x0304, encode), (0x0304, vec![4, 3]));
    let c = custom();
    let (at, request) =
        pinned_request(None, || 0x0304, encode, |block| c.get_neurons(NetUid(5), block));
    assert_eq!(at, 0x0304);
    assert_eq!(request.call, RuntimeCall::GetNeurons { netuid: NetUid(5) });
    assert_eq!(request.key.at, vec![4, 3]);
}

#[test]
fn a_cached_method_is_answered_at_its_block() {
    let mut cache = ResultCache::new(1000);
    let c = custom();
    for (at, expected) in [(Some(4u8), 4), (None, 9), (Some(9), 9), (Some(4), 4)] {
        let reply = serve_cached_at(
            &mut cache,
            at,
            || 9u8,
            |hash| vec![*hash],
            |block| c.get_subnets_info(block),
            |hash, call| {
                assert_eq!(call, RuntimeCall::GetSubnetsInfo);
                Ok(vec![hash; 3])
            },
        );
        assert_eq!(reply.unwrap(), vec![expected; 3]);
    }
    // The best block and the same block by its hash share their result.
    assert_eq!(stats(&cache), (2, 2));
}
