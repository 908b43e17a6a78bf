//! The calls that the RPC methods make into the runtime.
use crate::scale;
use crate::types::{AccountId32, MechId, NetUid};
use vstd::prelude::*;

verus! {

/// A call of a runtime API function whose result is handed on encoded, with the
/// arguments that it gets besides the block.
#[derive(Debug, PartialEq)]
pub enum RuntimeCall {
    GetDelegates,
    GetDelegate { account: AccountId32 },
    GetDelegated { account: AccountId32 },
    GetNeuronsLite { netuid: NetUid },
    GetNeuronLite { netuid: NetUid, uid: u16 },
    GetNeurons { netuid: NetUid },
    GetNeuron { netuid: NetUid, uid: u16 },
    GetSubnetInfo { netuid: NetUid },
    GetSubnetHyperparams { netuid: NetUid },
    GetSubnetHyperparamsV2 { netuid: NetUid },
    GetAllDynamicInfo,
    GetAllMetagraphs,
    GetAllMechagraphs,
    GetDynamicInfo { netuid: NetUid },
    GetMetagraph { netuid: NetUid },
    GetMechagraph { netuid: NetUid, mecid: MechId },
    GetSubnetState { netuid: NetUid },
    GetSubnetsInfo,
    GetSubnetInfoV2 { netuid: NetUid },
    GetSubnetsInfoV2,
    GetSelectiveMetagraph { netuid: NetUid, metagraph_index: Vec<u16> },
    GetColdkeyAutoStakeHotkey { coldkey: AccountId32, netuid: NetUid },
    GetSelectiveMechagraph { netuid: NetUid, mecid: MechId, metagraph_index: Vec<u16> },
    GetSubnetAccountId { netuid: NetUid },
    GetColdkeyLock { coldkey: AccountId32, netuid: NetUid },
    GetValidatorBasket { hotkey: AccountId32 },
    GetValidatorBasketSummary { hotkey: AccountId32 },
    GetAllValidatorBaskets,
    GetRootBasketPositions { coldkey: AccountId32 },
}

/// A call of a runtime API function whose result is an amount.
#[derive(Debug, PartialEq)]
pub enum AmountCall {
    GetBlockEmission,
    GetNetworkRegistrationCost,
    GetRootBasketOwed { coldkey: AccountId32 },
    GetBasketPayout { hotkey: AccountId32, coldkey: AccountId32 },
    GetValidatorBasketNav { hotkey: AccountId32 },
    GetRootBasketTotalNav,
}

/// A call of a runtime API function whose result is a subnet, if there is one.
#[derive(Debug, PartialEq)]
pub enum SubnetCall {
    GetSubnetToPrune,
}

impl RuntimeCall {
    /// The name under which the results of this call are cached, if they are.
    pub open spec fn cache_name(self) -> Option<Seq<char>> {
        match self {
            RuntimeCall::GetDelegates => Some("get_delegates"@),
            RuntimeCall::GetNeuronsLite { .. } => Some("get_neurons_lite"@),
            RuntimeCall::GetNeuronLite { .. } => Some("get_neuron_lite"@),
            RuntimeCall::GetNeurons { .. } => Some("get_neurons"@),
            RuntimeCall::GetNeuron { .. } => Some("get_neuron"@),
            RuntimeCall::GetSubnetHyperparams { .. } => Some("get_subnet_hyperparams"@),
            RuntimeCall::GetSubnetHyperparamsV2 { .. } => Some("get_subnet_hyperparams_v2"@),
            RuntimeCall::GetAllDynamicInfo => Some("get_all_dynamic_info"@),
            RuntimeCall::GetAllMetagraphs => Some("get_all_metagraphs"@),
            RuntimeCall::GetAllMechagraphs => Some("get_all_mechagraphs"@),
            RuntimeCall::GetDynamicInfo { .. } => Some("get_dynamic_info"@),
            RuntimeCall::GetMetagraph { .. } => Some("get_metagraph"@),
            RuntimeCall::GetMechagraph { .. } => Some("get_mechagraph"@),
            RuntimeCall::GetSubnetState { .. } => Some("get_subnet_state"@),
            RuntimeCall::GetSubnetsInfo => Some("get_subnets_info"@),
            RuntimeCall::GetSubnetsInfoV2 => Some("get_subnets_info_v2"@),
            RuntimeCall::GetSelectiveMetagraph { .. } => Some("get_selective_metagraph"@),
            RuntimeCall::GetSelectiveMechagraph { .. } => Some("get_selective_mechagraph"@),
            RuntimeCall::GetValidatorBasket { .. } => Some("get_validator_basket"@),
            RuntimeCall::GetAllValidatorBaskets => Some("get_all_validator_baskets"@),
            _ => None,
        }
    }

    /// The SCALE encoding of the arguments of a call whose results are cached.
    pub open spec fn params(self) -> Seq<u8> {
        match self {
            RuntimeCall::GetNeuronsLite { netuid } => scale::u16_bytes(netuid.0),
            RuntimeCall::GetNeuronLite { netuid, uid } => {
                scale::u16_bytes(netuid.0) + scale::u16_bytes(uid)
            },
            RuntimeCall::GetNeurons { netuid } => scale::u16_bytes(netuid.0),
            RuntimeCall::GetNeuron { netuid, uid } => {
                scale::u16_bytes(netuid.0) + scale::u16_bytes(uid)
            },
            RuntimeCall::GetSubnetHyperparams { netuid } => scale::u16_bytes(netuid.0),
            RuntimeCall::GetSubnetHyperparamsV2 { netuid } => scale::u16_bytes(netuid.0),
            RuntimeCall::GetDynamicInfo { netuid } => scale::u16_bytes(netuid.0),
            RuntimeCall::GetMetagraph { netuid } => scale::u16_bytes(netuid.0),
            RuntimeCall::GetMechagraph { netuid, mecid } => {
                scale::u16_bytes(netuid.0) + seq![mecid.0]
            },
            RuntimeCall::GetSubnetState { netuid } => scale::u16_bytes(netuid.0),
            RuntimeCall::GetSelectiveMetagraph { netuid, metagraph_index } => {
                scale::u16_bytes(netuid.0) + scale::u16_list_bytes(metagraph_index@)
            },
            RuntimeCall::GetSelectiveMechagraph { netuid, mecid, metagraph_index } => {
                scale::u16_bytes(netuid.0) + seq![mecid.0] + scale::u16_list_bytes(metagraph_index@)
            },
            RuntimeCall::GetValidatorBasket { hotkey } => hotkey@,
            _ => Seq::empty(),
        }
    }

    /// The words that a failure of a call whose results are cached is reported
    /// with, before what the runtime says of it.
    pub open spec fn failure_words(self) -> Seq<char> {
        match self {
            RuntimeCall::GetDelegates => "Unable to get delegates info: "@,
            RuntimeCall::GetNeuronsLite { .. } => "Unable to get neurons lite info: "@,
            RuntimeCall::GetNeuronLite { .. } => "Unable to get neurons lite info: "@,
            RuntimeCall::GetNeurons { .. } => "Unable to get neurons info: "@,
            RuntimeCall::GetNeuron { .. } => "Unable to get neuron info: "@,
            RuntimeCall::GetSubnetHyperparams { .. } => "Unable to get subnet info: "@,
            RuntimeCall::GetSubnetHyperparamsV2 { .. } => "Unable to get subnet info: "@,
            RuntimeCall::GetAllDynamicInfo => "Unable to get dynamic subnets info: "@,
            RuntimeCall::GetAllMetagraphs => "Unable to get metagraps: "@,
            RuntimeCall::GetAllMechagraphs => "Unable to get metagraps: "@,
            RuntimeCall::GetDynamicInfo { .. } => "Unable to get dynamic subnets info: "@,
            RuntimeCall::GetMetagraph { .. } => "Unable to get dynamic subnets info: "@,
            RuntimeCall::GetMechagraph { .. } => "Unable to get dynamic subnets info: "@,
            RuntimeCall::GetSubnetState { .. } => "Unable to get subnet state info: "@,
            RuntimeCall::GetSubnetsInfo => "Unable to get subnets info: "@,
            RuntimeCall::GetSubnetsInfoV2 => "Unable to get subnets info: "@,
            RuntimeCall::GetSelectiveMetagraph { .. } => "Unable to get selective metagraph: "@,
            RuntimeCall::GetSelectiveMechagraph { .. } => "Unable to get selective metagraph: "@,
            RuntimeCall::GetValidatorBasket { .. } => "Unable to get validator basket: "@,
            RuntimeCall::GetAllValidatorBaskets => "Unable to get all validator baskets: "@,
            _ => Seq::empty(),
        }
    }

    /// Whether the lists among the arguments are short enough to be encoded.
    pub open spec fn encodable(self) -> bool {
        match self {
            RuntimeCall::GetSelectiveMetagraph { netuid, metagraph_index } => {
                metagraph_index@.len() <= u32::MAX
            },
            RuntimeCall::GetSelectiveMechagraph { netuid, mecid, metagraph_index } => {
                metagraph_index@.len() <= u32::MAX
            },
            _ => true,
        }
    }

    /// A number for each function whose results are cached.
    pub open spec fn function_index(self) -> int {
        match self {
            RuntimeCall::GetDelegates => 0,
            RuntimeCall::GetNeuronsLite { .. } => 1,
            RuntimeCall::GetNeuronLite { .. } => 2,
            RuntimeCall::GetNeurons { .. } => 3,
            RuntimeCall::GetNeuron { .. } => 4,
            RuntimeCall::GetSubnetHyperparams { .. } => 5,
            RuntimeCall::GetSubnetHyperparamsV2 { .. } => 6,
            RuntimeCall::GetAllDynamicInfo => 7,
            RuntimeCall::GetAllMetagraphs => 8,
            RuntimeCall::GetAllMechagraphs => 9,
            RuntimeCall::GetDynamicInfo { .. } => 10,
            RuntimeCall::GetMetagraph { .. } => 11,
            RuntimeCall::GetMechagraph { .. } => 12,
            RuntimeCall::GetSubnetState { .. } => 13,
            RuntimeCall::GetSubnetsInfo => 14,
            RuntimeCall::GetSubnetsInfoV2 => 15,
            RuntimeCall::GetSelectiveMetagraph { .. } => 16,
            RuntimeCall::GetSelectiveMechagraph { .. } => 17,
            RuntimeCall::GetValidatorBasket { .. } => 18,
            RuntimeCall::GetAllValidatorBaskets => 19,
            _ => -1,
        }
    }

    /// Whether two calls are of the same function with the same arguments.
    pub open spec fn same(self, other: RuntimeCall) -> bool {
        match (self, other) {
            (
                RuntimeCall::GetSelectiveMetagraph { netuid: a, metagraph_index: x },
                RuntimeCall::GetSelectiveMetagraph { netuid: b, metagraph_index: y },
            ) => a == b && x@ == y@,
            (
                RuntimeCall::GetSelectiveMechagraph { netuid: a, mecid: c, metagraph_index: x },
                RuntimeCall::GetSelectiveMechagraph { netuid: b, mecid: d, metagraph_index: y },
            ) => a == b && c == d && x@ == y@,
            _ => self == other,
        }
    }
}

} // verus!
