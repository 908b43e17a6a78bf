//! The RPC methods: what each of them asks of the runtime, under which key its
//! result is cached, and what a failure is reported as.
use crate::cache_key::{Key, KeyModel};
use crate::error;
use crate::error::Error;
use crate::request::{CachedRequest, DirectRequest, Failure};
use crate::runtime_call::{AmountCall, RuntimeCall, SubnetCall};
use crate::scale;
use crate::types::{AccountId32, MechId, NetUid};
use jsonrpsee::types::ErrorObjectOwned;
use std::marker::PhantomData;
use std::sync::Arc;
use vstd::prelude::*;

verus! {

/// The custom RPC methods, over a client.
pub struct SubtensorCustom<C, P> {
    /// Shared reference to the client.
    client: Arc<C>,
    _marker: PhantomData<P>,
}

impl<C, P> SubtensorCustom<C, P> {
    /// The client that the runtime is called through.
    pub closed spec fn spec_client(&self) -> Arc<C> {
        self.client
    }

    /// Creates a new instance of the RPC helper.
    pub fn new(client: Arc<C>) -> (custom: Self)
        ensures
            custom.spec_client() == client,
    {
        SubtensorCustom { client, _marker: PhantomData }
    }

    /// The client that the runtime is called through.
    pub fn client(&self) -> (client: &Arc<C>)
        ensures
            *client == self.spec_client(),
    {
        &self.client
    }

    /// All delegates.
    pub fn get_delegates(&self, at: Vec<u8>) -> (request: CachedRequest)
        ensures
            request.coherent(),
            request.call == RuntimeCall::GetDelegates,
            request.key@ == (KeyModel {
                call: "get_delegates"@,
                params: Seq::empty(),
                at: at@,
            }),
            request.failure.describes("Unable to get delegates info: "@),
    {
        let params: Vec<u8> = Vec::new();
        CachedRequest {
            call: RuntimeCall::GetDelegates,
            key: Key { call: "get_delegates", params, at },
            failure: Failure::Described("Unable to get delegates info: "),
        }
    }

    /// The delegate with the given account, SCALE-encoded. Fewer bytes than an
    /// account has are refused.
    pub fn get_delegate(
        &self,
        delegate_account_vec: Vec<u8>,
    ) -> (request: Result<DirectRequest<RuntimeCall>, ErrorObjectOwned>)
        ensures
            match request {
                Ok(request) => {
                    &&& delegate_account_vec@.len() >= 32
                    &&& request.call matches RuntimeCall::GetDelegate { account }
                    &&& account@ == delegate_account_vec@.take(32)
                    &&& request.failure.describes("Unable to get delegates info: "@)
                },
                Err(refused) => {
                    &&& delegate_account_vec@.len() < 32
                    &&& refused == error::error_object(
                        1,
                        "Unable to get delegates info: "@
                            + scale::account_error(delegate_account_vec@),
                    )
                },
            },
    {
        let failure = Failure::Described("Unable to get delegates info: ");
        match scale::decode_account(delegate_account_vec.as_slice()) {
            Ok(account) => {
                Ok(DirectRequest { call: RuntimeCall::GetDelegate { account }, failure })
            },
            Err(text) => Err(
                ErrorObjectOwned::from(Error::RuntimeError(failure.describe(text.as_str()))),
            ),
        }
    }

    /// What the account, SCALE-encoded, has delegated. Fewer bytes than an account
    /// has are refused.
    pub fn get_delegated(
        &self,
        delegatee_account_vec: Vec<u8>,
    ) -> (request: Result<DirectRequest<RuntimeCall>, ErrorObjectOwned>)
        ensures
            match request {
                Ok(request) => {
                    &&& delegatee_account_vec@.len() >= 32
                    &&& request.call matches RuntimeCall::GetDelegated { account }
                    &&& account@ == delegatee_account_vec@.take(32)
                    &&& request.failure.describes("Unable to get delegates info: "@)
                },
                Err(refused) => {
                    &&& delegatee_account_vec@.len() < 32
                    &&& refused == error::error_object(
                        1,
                        "Unable to get delegates info: "@
                            + scale::account_error(delegatee_account_vec@),
                    )
                },
            },
    {
        let failure = Failure::Described("Unable to get delegates info: ");
        match scale::decode_account(delegatee_account_vec.as_slice()) {
            Ok(account) => {
                Ok(DirectRequest { call: RuntimeCall::GetDelegated { account }, failure })
            },
            Err(text) => Err(
                ErrorObjectOwned::from(Error::RuntimeError(failure.describe(text.as_str()))),
            ),
        }
    }

    /// The neurons of a subnet, in the light form.
    pub fn get_neurons_lite(&self, netuid: NetUid, at: Vec<u8>) -> (request: CachedRequest)
        ensures
            request.coherent(),
            request.call == (RuntimeCall::GetNeuronsLite { netuid }),
            request.key@ == (KeyModel {
                call: "get_neurons_lite"@,
                params: scale::u16_bytes(netuid.0),
                at: at@,
            }),
            request.failure.describes("Unable to get neurons lite info: "@),
    {
        let params: Vec<u8> = scale::encode_netuid(netuid);
        CachedRequest {
            call: RuntimeCall::GetNeuronsLite { netuid },
            key: Key { call: "get_neurons_lite", params, at },
            failure: Failure::Described("Unable to get neurons lite info: "),
        }
    }

    /// One neuron of a subnet, in the light form.
    pub fn get_neuron_lite(&self, netuid: NetUid, uid: u16, at: Vec<u8>) -> (request: CachedRequest)
        ensures
            request.coherent(),
            request.call == (RuntimeCall::GetNeuronLite { netuid, uid }),
            request.key@ == (KeyModel {
                call: "get_neuron_lite"@,
                params: scale::u16_bytes(netuid.0) + scale::u16_bytes(uid),
                at: at@,
            }),
            request.failure.describes("Unable to get neurons lite info: "@),
    {
        let params: Vec<u8> = scale::encode_netuid_uid(netuid, uid);
        CachedRequest {
            call: RuntimeCall::GetNeuronLite { netuid, uid },
            key: Key { call: "get_neuron_lite", params, at },
            failure: Failure::Described("Unable to get neurons lite info: "),
        }
    }

    /// The neurons of a subnet.
    pub fn get_neurons(&self, netuid: NetUid, at: Vec<u8>) -> (request: CachedRequest)
        ensures
            request.coherent(),
            request.call == (RuntimeCall::GetNeurons { netuid }),
            request.key@ == (KeyModel {
                call: "get_neurons"@,
                params: scale::u16_bytes(netuid.0),
                at: at@,
            }),
            request.failure.describes("Unable to get neurons info: "@),
    {
        let params: Vec<u8> = scale::encode_netuid(netuid);
        CachedRequest {
            call: RuntimeCall::GetNeurons { netuid },
            key: Key { call: "get_neurons", params, at },
            failure: Failure::Described("Unable to get neurons info: "),
        }
    }

    /// One neuron of a subnet.
    pub fn get_neuron(&self, netuid: NetUid, uid: u16, at: Vec<u8>) -> (request: CachedRequest)
        ensures
            request.coherent(),
            request.call == (RuntimeCall::GetNeuron { netuid, uid }),
            request.key@ == (KeyModel {
                call: "get_neuron"@,
                params: scale::u16_bytes(netuid.0) + scale::u16_bytes(uid),
                at: at@,
            }),
            request.failure.describes("Unable to get neuron info: "@),
    {
        let params: Vec<u8> = scale::encode_netuid_uid(netuid, uid);
        CachedRequest {
            call: RuntimeCall::GetNeuron { netuid, uid },
            key: Key { call: "get_neuron", params, at },
            failure: Failure::Described("Unable to get neuron info: "),
        }
    }

    /// A subnet.
    pub fn get_subnet_info(&self, netuid: NetUid) -> (request: DirectRequest<RuntimeCall>)
        ensures
            request.call == (RuntimeCall::GetSubnetInfo { netuid }),
            request.failure.describes("Unable to get subnet info: "@),
    {
        DirectRequest {
            call: RuntimeCall::GetSubnetInfo { netuid },
            failure: Failure::Described("Unable to get subnet info: "),
        }
    }

    /// The hyperparameters of a subnet.
    pub fn get_subnet_hyperparams(&self, netuid: NetUid, at: Vec<u8>) -> (request: CachedRequest)
        ensures
            request.coherent(),
            request.call == (RuntimeCall::GetSubnetHyperparams { netuid }),
            request.key@ == (KeyModel {
                call: "get_subnet_hyperparams"@,
                params: scale::u16_bytes(netuid.0),
                at: at@,
            }),
            request.failure.describes("Unable to get subnet info: "@),
    {
        let params: Vec<u8> = scale::encode_netuid(netuid);
        CachedRequest {
            call: RuntimeCall::GetSubnetHyperparams { netuid },
            key: Key { call: "get_subnet_hyperparams", params, at },
            failure: Failure::Described("Unable to get subnet info: "),
        }
    }

    /// The hyperparameters of a subnet, second version.
    pub fn get_subnet_hyperparams_v2(&self, netuid: NetUid, at: Vec<u8>) -> (request: CachedRequest)
        ensures
            request.coherent(),
            request.call == (RuntimeCall::GetSubnetHyperparamsV2 { netuid }),
            request.key@ == (KeyModel {
                call: "get_subnet_hyperparams_v2"@,
                params: scale::u16_bytes(netuid.0),
                at: at@,
            }),
            request.failure.describes("Unable to get subnet info: "@),
    {
        let params: Vec<u8> = scale::encode_netuid(netuid);
        CachedRequest {
            call: RuntimeCall::GetSubnetHyperparamsV2 { netuid },
            key: Key { call: "get_subnet_hyperparams_v2", params, at },
            failure: Failure::Described("Unable to get subnet info: "),
        }
    }

    /// The dynamic state of all subnets.
    pub fn get_all_dynamic_info(&self, at: Vec<u8>) -> (request: CachedRequest)
        ensures
            request.coherent(),
            request.call == RuntimeCall::GetAllDynamicInfo,
            request.key@ == (KeyModel {
                call: "get_all_dynamic_info"@,
                params: Seq::empty(),
                at: at@,
            }),
            request.failure.describes("Unable to get dynamic subnets info: "@),
    {
        let params: Vec<u8> = Vec::new();
        CachedRequest {
            call: RuntimeCall::GetAllDynamicInfo,
            key: Key { call: "get_all_dynamic_info", params, at },
            failure: Failure::Described("Unable to get dynamic subnets info: "),
        }
    }

    /// The metagraphs of all subnets.
    pub fn get_all_metagraphs(&self, at: Vec<u8>) -> (request: CachedRequest)
        ensures
            request.coherent(),
            request.call == RuntimeCall::GetAllMetagraphs,
            request.key@ == (KeyModel {
                call: "get_all_metagraphs"@,
                params: Seq::empty(),
                at: at@,
            }),
            request.failure.describes("Unable to get metagraps: "@),
    {
        let params: Vec<u8> = Vec::new();
        CachedRequest {
            call: RuntimeCall::GetAllMetagraphs,
            key: Key { call: "get_all_metagraphs", params, at },
            failure: Failure::Described("Unable to get metagraps: "),
        }
    }

    /// The mechagraphs of all subnets.
    pub fn get_all_mechagraphs(&self, at: Vec<u8>) -> (request: CachedRequest)
        ensures
            request.coherent(),
            request.call == RuntimeCall::GetAllMechagraphs,
            request.key@ == (KeyModel {
                call: "get_all_mechagraphs"@,
                params: Seq::empty(),
                at: at@,
            }),
            request.failure.describes("Unable to get metagraps: "@),
    {
        let params: Vec<u8> = Vec::new();
        CachedRequest {
            call: RuntimeCall::GetAllMechagraphs,
            key: Key { call: "get_all_mechagraphs", params, at },
            failure: Failure::Described("Unable to get metagraps: "),
        }
    }

    /// The dynamic state of a subnet.
    pub fn get_dynamic_info(&self, netuid: NetUid, at: Vec<u8>) -> (request: CachedRequest)
        ensures
            request.coherent(),
            request.call == (RuntimeCall::GetDynamicInfo { netuid }),
            request.key@ == (KeyModel {
                call: "get_dynamic_info"@,
                params: scale::u16_bytes(netuid.0),
                at: at@,
            }),
            request.failure.describes("Unable to get dynamic subnets info: "@),
    {
        let params: Vec<u8> = scale::encode_netuid(netuid);
        CachedRequest {
            call: RuntimeCall::GetDynamicInfo { netuid },
            key: Key { call: "get_dynamic_info", params, at },
            failure: Failure::Described("Unable to get dynamic subnets info: "),
        }
    }

    /// The metagraph of a subnet.
    pub fn get_metagraph(&self, netuid: NetUid, at: Vec<u8>) -> (request: CachedRequest)
        ensures
            request.coherent(),
            request.call == (RuntimeCall::GetMetagraph { netuid }),
            request.key@ == (KeyModel {
                call: "get_metagraph"@,
                params: scale::u16_bytes(netuid.0),
                at: at@,
            }),
            request.failure.describes("Unable to get dynamic subnets info: "@),
    {
        let params: Vec<u8> = scale::encode_netuid(netuid);
        CachedRequest {
            call: RuntimeCall::GetMetagraph { netuid },
            key: Key { call: "get_metagraph", params, at },
            failure: Failure::Described("Unable to get dynamic subnets info: "),
        }
    }

    /// The mechagraph of a mechanism of a subnet.
    pub fn get_mechagraph(
        &self,
        netuid: NetUid,
        mecid: MechId,
        at: Vec<u8>,
    ) -> (request: CachedRequest)
        ensures
            request.coherent(),
            request.call == (RuntimeCall::GetMechagraph { netuid, mecid }),
            request.key@ == (KeyModel {
                call: "get_mechagraph"@,
                params: scale::u16_bytes(netuid.0) + seq![mecid.0],
                at: at@,
            }),
            request.failure.describes("Unable to get dynamic subnets info: "@),
    {
        let params: Vec<u8> = scale::encode_netuid_mecid(netuid, mecid);
        CachedRequest {
            call: RuntimeCall::GetMechagraph { netuid, mecid },
            key: Key { call: "get_mechagraph", params, at },
            failure: Failure::Described("Unable to get dynamic subnets info: "),
        }
    }

    /// The state of a subnet.
    pub fn get_subnet_state(&self, netuid: NetUid, at: Vec<u8>) -> (request: CachedRequest)
        ensures
            request.coherent(),
            request.call == (RuntimeCall::GetSubnetState { netuid }),
            request.key@ == (KeyModel {
                call: "get_subnet_state"@,
                params: scale::u16_bytes(netuid.0),
                at: at@,
            }),
            request.failure.describes("Unable to get subnet state info: "@),
    {
        let params: Vec<u8> = scale::encode_netuid(netuid);
        CachedRequest {
            call: RuntimeCall::GetSubnetState { netuid },
            key: Key { call: "get_subnet_state", params, at },
            failure: Failure::Described("Unable to get subnet state info: "),
        }
    }

    /// All subnets.
    pub fn get_subnets_info(&self, at: Vec<u8>) -> (request: CachedRequest)
        ensures
            request.coherent(),
            request.call == RuntimeCall::GetSubnetsInfo,
            request.key@ == (KeyModel {
                call: "get_subnets_info"@,
                params: Seq::empty(),
                at: at@,
            }),
            request.failure.describes("Unable to get subnets info: "@),
    {
        let params: Vec<u8> = Vec::new();
        CachedRequest {
            call: RuntimeCall::GetSubnetsInfo,
            key: Key { call: "get_subnets_info", params, at },
            failure: Failure::Described("Unable to get subnets info: "),
        }
    }

    /// A subnet, second version.
    pub fn get_subnet_info_v2(&self, netuid: NetUid) -> (request: DirectRequest<RuntimeCall>)
        ensures
            request.call == (RuntimeCall::GetSubnetInfoV2 { netuid }),
            request.failure.describes("Unable to get subnet info: "@),
    {
        DirectRequest {
            call: RuntimeCall::GetSubnetInfoV2 { netuid },
            failure: Failure::Described("Unable to get subnet info: "),
        }
    }

    /// All subnets, second version.
    pub fn get_subnets_info_v2(&self, at: Vec<u8>) -> (request: CachedRequest)
        ensures
            request.coherent(),
            request.call == RuntimeCall::GetSubnetsInfoV2,
            request.key@ == (KeyModel {
                call: "get_subnets_info_v2"@,
                params: Seq::empty(),
                at: at@,
            }),
            request.failure.describes("Unable to get subnets info: "@),
    {
        let params: Vec<u8> = Vec::new();
        CachedRequest {
            call: RuntimeCall::GetSubnetsInfoV2,
            key: Key { call: "get_subnets_info_v2", params, at },
            failure: Failure::Described("Unable to get subnets info: "),
        }
    }

    /// The emission of a block.
    pub fn get_block_emission(&self) -> (request: DirectRequest<AmountCall>)
        ensures
            request.call == AmountCall::GetBlockEmission,
            request.failure.describes("Unable to get block emission: "@),
    {
        DirectRequest {
            call: AmountCall::GetBlockEmission,
            failure: Failure::Described("Unable to get block emission: "),
        }
    }

    /// The cost of registering a subnet.
    pub fn get_network_lock_cost(&self) -> (request: DirectRequest<AmountCall>)
        ensures
            request.call == AmountCall::GetNetworkRegistrationCost,
            request.failure.describes("Unable to get subnet lock cost: "@),
    {
        DirectRequest {
            call: AmountCall::GetNetworkRegistrationCost,
            failure: Failure::Described("Unable to get subnet lock cost: "),
        }
    }

    /// The chosen parts of the metagraph of a subnet.
    pub fn get_selective_metagraph(
        &self,
        netuid: NetUid,
        metagraph_index: Vec<u16>,
        at: Vec<u8>,
    ) -> (request: CachedRequest)
        requires
            metagraph_index@.len() <= u32::MAX,
        ensures
            request.coherent(),
            request.call == (RuntimeCall::GetSelectiveMetagraph { netuid, metagraph_index }),
            request.key@ == (KeyModel {
                call: "get_selective_metagraph"@,
                params: scale::u16_bytes(netuid.0) + scale::u16_list_bytes(metagraph_index@),
                at: at@,
            }),
            request.failure.describes("Unable to get selective metagraph: "@),
    {
        let params: Vec<u8> = scale::encode_netuid_list(netuid, &metagraph_index);
        CachedRequest {
            call: RuntimeCall::GetSelectiveMetagraph { netuid, metagraph_index },
            key: Key { call: "get_selective_metagraph", params, at },
            failure: Failure::Described("Unable to get selective metagraph: "),
        }
    }

    /// The hotkey that a coldkey stakes to by itself.
    pub fn get_coldkey_auto_stake_hotkey(
        &self,
        coldkey: AccountId32,
        netuid: NetUid,
    ) -> (request: DirectRequest<RuntimeCall>)
        ensures
            request.call == (RuntimeCall::GetColdkeyAutoStakeHotkey { coldkey, netuid }),
            request.failure.describes("Unable to get coldkey auto stake hotkey: "@),
    {
        DirectRequest {
            call: RuntimeCall::GetColdkeyAutoStakeHotkey { coldkey, netuid },
            failure: Failure::Described("Unable to get coldkey auto stake hotkey: "),
        }
    }

    /// The chosen parts of the mechagraph of a mechanism of a subnet.
    pub fn get_selective_mechagraph(
        &self,
        netuid: NetUid,
        mecid: MechId,
        metagraph_index: Vec<u16>,
        at: Vec<u8>,
    ) -> (request: CachedRequest)
        requires
            metagraph_index@.len() <= u32::MAX,
        ensures
            request.coherent(),
            request.call == (RuntimeCall::GetSelectiveMechagraph {
                netuid,
                mecid,
                metagraph_index,
            }),
            request.key@ == (KeyModel {
                call: "get_selective_mechagraph"@,
                params: scale::u16_bytes(netuid.0) + seq![mecid.0]
                    + scale::u16_list_bytes(metagraph_index@),
                at: at@,
            }),
            request.failure.describes("Unable to get selective metagraph: "@),
    {
        let params: Vec<u8> =
            scale::encode_netuid_mecid_list(netuid, mecid, &metagraph_index);
        CachedRequest {
            call: RuntimeCall::GetSelectiveMechagraph { netuid, mecid, metagraph_index },
            key: Key { call: "get_selective_mechagraph", params, at },
            failure: Failure::Described("Unable to get selective metagraph: "),
        }
    }

    /// The subnet that is to be pruned next, if any.
    pub fn get_subnet_to_prune(&self) -> (request: DirectRequest<SubnetCall>)
        ensures
            request.call == SubnetCall::GetSubnetToPrune,
            request.failure.describes("Unable to get subnet to prune: "@),
    {
        DirectRequest {
            call: SubnetCall::GetSubnetToPrune,
            failure: Failure::Described("Unable to get subnet to prune: "),
        }
    }

    /// The account of a subnet. Whatever the runtime says, a failure means that there
    /// is no such subnet.
    pub fn get_subnet_account_id(&self, netuid: NetUid) -> (request: DirectRequest<RuntimeCall>)
        ensures
            request.call == (RuntimeCall::GetSubnetAccountId { netuid }),
            request.failure.is_fixed("Subnet does not exist"@),
    {
        DirectRequest {
            call: RuntimeCall::GetSubnetAccountId { netuid },
            failure: Failure::Fixed("Subnet does not exist"),
        }
    }

    /// The lock of a coldkey on a subnet.
    pub fn get_coldkey_lock(
        &self,
        coldkey: AccountId32,
        netuid: NetUid,
    ) -> (request: DirectRequest<RuntimeCall>)
        ensures
            request.call == (RuntimeCall::GetColdkeyLock { coldkey, netuid }),
            request.failure.describes("Unable to get coldkey lock: "@),
    {
        DirectRequest {
            call: RuntimeCall::GetColdkeyLock { coldkey, netuid },
            failure: Failure::Described("Unable to get coldkey lock: "),
        }
    }

    /// Total TAO a staker (coldkey) would realize by redeeming all its root beta baskets.
    pub fn get_root_basket_owed(&self, coldkey: AccountId32) -> (request: DirectRequest<AmountCall>)
        ensures
            request.call == (AmountCall::GetRootBasketOwed { coldkey }),
            request.failure.describes("Unable to get root basket owed: "@),
    {
        DirectRequest {
            call: AmountCall::GetRootBasketOwed { coldkey },
            failure: Failure::Described("Unable to get root basket owed: "),
        }
    }

    /// TAO a staker would realize by redeeming its owed shares on one validator.
    pub fn get_basket_payout(
        &self,
        hotkey: AccountId32,
        coldkey: AccountId32,
    ) -> (request: DirectRequest<AmountCall>)
        ensures
            request.call == (AmountCall::GetBasketPayout { hotkey, coldkey }),
            request.failure.describes("Unable to get staker validator owed: "@),
    {
        DirectRequest {
            call: AmountCall::GetBasketPayout { hotkey, coldkey },
            failure: Failure::Described("Unable to get staker validator owed: "),
        }
    }

    /// A validator's beta basket net asset value, in TAO.
    pub fn get_validator_basket_nav(
        &self,
        hotkey: AccountId32,
    ) -> (request: DirectRequest<AmountCall>)
        ensures
            request.call == (AmountCall::GetValidatorBasketNav { hotkey }),
            request.failure.describes("Unable to get validator basket NAV: "@),
    {
        DirectRequest {
            call: AmountCall::GetValidatorBasketNav { hotkey },
            failure: Failure::Described("Unable to get validator basket NAV: "),
        }
    }

    /// A validator's full basket breakdown.
    pub fn get_validator_basket(&self, hotkey: AccountId32, at: Vec<u8>) -> (request: CachedRequest)
        ensures
            request.coherent(),
            request.call == (RuntimeCall::GetValidatorBasket { hotkey }),
            request.key@ == (KeyModel {
                call: "get_validator_basket"@,
                params: hotkey@,
                at: at@,
            }),
            request.failure.describes("Unable to get validator basket: "@),
    {
        let params: Vec<u8> = scale::encode_account(hotkey);
        CachedRequest {
            call: RuntimeCall::GetValidatorBasket { hotkey },
            key: Key { call: "get_validator_basket", params, at },
            failure: Failure::Described("Unable to get validator basket: "),
        }
    }

    /// Network-wide total beta basket NAV across all validators, in TAO.
    pub fn get_root_basket_total_nav(&self) -> (request: DirectRequest<AmountCall>)
        ensures
            request.call == AmountCall::GetRootBasketTotalNav,
            request.failure.describes("Unable to get total basket NAV: "@),
    {
        DirectRequest {
            call: AmountCall::GetRootBasketTotalNav,
            failure: Failure::Described("Unable to get total basket NAV: "),
        }
    }

    /// Full basket summary for one validator.
    pub fn get_validator_basket_summary(
        &self,
        hotkey: AccountId32,
    ) -> (request: DirectRequest<RuntimeCall>)
        ensures
            request.call == (RuntimeCall::GetValidatorBasketSummary { hotkey }),
            request.failure.describes("Unable to get validator basket summary: "@),
    {
        DirectRequest {
            call: RuntimeCall::GetValidatorBasketSummary { hotkey },
            failure: Failure::Described("Unable to get validator basket summary: "),
        }
    }

    /// Summaries for every validator with an active basket.
    pub fn get_all_validator_baskets(&self, at: Vec<u8>) -> (request: CachedRequest)
        ensures
            request.coherent(),
            request.call == RuntimeCall::GetAllValidatorBaskets,
            request.key@ == (KeyModel {
                call: "get_all_validator_baskets"@,
                params: Seq::empty(),
                at: at@,
            }),
            request.failure.describes("Unable to get all validator baskets: "@),
    {
        let params: Vec<u8> = Vec::new();
        CachedRequest {
            call: RuntimeCall::GetAllValidatorBaskets,
            key: Key { call: "get_all_validator_baskets", params, at },
            failure: Failure::Described("Unable to get all validator baskets: "),
        }
    }

    /// A staker's positions across its validators.
    pub fn get_root_basket_positions(
        &self,
        coldkey: AccountId32,
    ) -> (request: DirectRequest<RuntimeCall>)
        ensures
            request.call == (RuntimeCall::GetRootBasketPositions { coldkey }),
            request.failure.describes("Unable to get root basket positions: "@),
    {
        DirectRequest {
            call: RuntimeCall::GetRootBasketPositions { coldkey },
            failure: Failure::Described("Unable to get root basket positions: "),
        }
    }
}

} // verus!
