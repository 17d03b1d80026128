use arkade_city::address::{
    boarding_address, my_address, my_script_hex, nums_registry_address, player_contract,
    player_vtxo, NUMS_KEY,
};
use arkade_city::arkade::{Network, ServerParams};
use arkade_city::match_::GAME_ADDRESS;

fn mutinynet() -> ServerParams {
    let signer_pk = ark_core::ArkAddress::decode(GAME_ADDRESS).unwrap().server().serialize();
    ServerParams {
        server_version: String::new(),
        signer_pk,
        forfeit_pk: Vec::new(),
        network: Network::Signet,
        network_name: "mutinynet".to_string(),
        dust_sats: 330,
        vtxo_min_sats: 1,
        unilateral_exit_delay: 0x40_0004,
        max_op_return_outputs: 3,
        checkpoint_tapscript: Vec::new(),
        forfeit_address: String::new(),
    }
}

#[test]
fn registry_is_the_contract_of_the_unspendable_key() {
    let contract = nums_registry_address(&mutinynet()).unwrap();
    assert_eq!(contract.address, GAME_ADDRESS);
    assert_eq!(contract.script[..2], [0x51, 0x20]);
    let key: bitcoin::PublicKey = ark_core::UNSPENDABLE_KEY.parse().unwrap();
    assert_eq!(key.inner.x_only_public_key().0.serialize(), NUMS_KEY);
}

#[test]
fn addresses_follow_the_owner() {
    let params = mutinynet();
    let owner = params.signer_pk;
    let secp = bitcoin::key::Secp256k1::new();
    let key = bitcoin::XOnlyPublicKey::from_slice(&owner).unwrap();
    let delay = bitcoin::Sequence(params.unilateral_exit_delay);
    let signet = bitcoin::Network::Signet;
    let outside = ark_core::Vtxo::new_default(&secp, key, key, delay, signet).unwrap();
    assert_eq!(my_address(&owner, &params), Some(outside.to_ark_address().encode()));
    assert_eq!(my_script_hex(&owner, &params), Some(outside.script_pubkey().to_hex_string()));
    assert_ne!(my_address(&owner, &params), my_address(&NUMS_KEY, &params));
    let contract = player_contract(&owner, &params).unwrap();
    assert_eq!(contract.script, outside.script_pubkey().into_bytes());
    let boarding = ark_core::BoardingOutput::new(&secp, key, key, delay, signet).unwrap();
    assert_eq!(boarding_address(&owner, &params), Some(boarding.address().to_string()));
}

#[test]
fn keys_off_the_curve_have_no_contract() {
    let params = mutinynet();
    assert!(player_vtxo(&[0; 32], &params).is_none());
    assert!(my_address(&[0; 32], &params).is_none());
    assert!(my_script_hex(&[0; 32], &params).is_none());
    assert!(boarding_address(&[0; 32], &params).is_none());
}
