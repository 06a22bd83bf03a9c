use puzzle_contracts::guild::{Error, GuildContract, Role};
use puzzle_contracts::token::RewardToken;

const LEADER: u64 = 1;
const OFFICER: u64 = 2;
const MEMBER: u64 = 3;
const TOKEN_ADMIN: u64 = 4;
const CONTRACT: u64 = 100;
const TOKEN_ADDR: u64 = 10;

fn make_ledger() -> RewardToken {
    let mut l = RewardToken::new();
    l.initialize(TOKEN_ADMIN, String::from("T"), String::from("T"), 6).unwrap();
    l
}

#[test]
fn test_guild_lifecycle() {
    let mut g = GuildContract::new(CONTRACT);
    let mut ledger = make_ledger();
    g.initialize(LEADER, String::from("Stellar Knights"), TOKEN_ADDR).unwrap();

    g.join(MEMBER).unwrap();
    assert_eq!(g.get_role(MEMBER), Some(Role::Member));
    g.set_role(LEADER, OFFICER, Role::Officer).unwrap();
    assert_eq!(g.get_role(OFFICER), Some(Role::Officer));

    ledger.mint(TOKEN_ADMIN, MEMBER, 1000).unwrap();
    g.deposit(&mut ledger, MEMBER, 1000).unwrap();
    assert_eq!(ledger.balance(CONTRACT), 1000);

    let gold_resource: u64 = 1;
    g.add_resource(OFFICER, gold_resource, 50).unwrap();

    let proposal_id = g.create_proposal(OFFICER, 2000).unwrap();
    g.vote(MEMBER, proposal_id, true, 1000).unwrap();

    ledger.mint(TOKEN_ADMIN, CONTRACT, 200).unwrap();
    // Three members (leader, officer, member) split 1200 evenly.
    g.disband(&mut ledger, LEADER).unwrap();
    assert_eq!(ledger.balance(MEMBER), 400);
    assert_eq!(ledger.balance(LEADER), 400);
    assert_eq!(ledger.balance(OFFICER), 400);
}

#[test]
fn test_unauthorized_resource_addition() {
    let mut g = GuildContract::new(CONTRACT);
    let stranger: u64 = 9;
    g.initialize(LEADER, String::from("DAO"), TOKEN_ADDR).unwrap();
    let iron: u64 = 2;
    assert_eq!(g.add_resource(stranger, iron, 100), Err(Error::Unauthorized));
}

#[test]
fn test_guild_error_paths() {
    let mut g = GuildContract::new(CONTRACT);
    let mut ledger = make_ledger();
    assert_eq!(g.join(MEMBER), Err(Error::NotInitialized));
    g.initialize(LEADER, String::from("G"), TOKEN_ADDR).unwrap();
    assert_eq!(
        g.initialize(LEADER, String::from("G"), TOKEN_ADDR),
        Err(Error::AlreadyInitialized)
    );
    g.join(MEMBER).unwrap();
    assert_eq!(g.join(MEMBER), Err(Error::AlreadyMember));
    assert_eq!(g.vote(9, 1, true, 0), Err(Error::NotAMember));
    assert_eq!(g.vote(MEMBER, 1, true, 0), Err(Error::ProposalNotFound));
    let pid = g.create_proposal(LEADER, 100).unwrap();
    assert_eq!(g.vote(MEMBER, pid, true, 101), Err(Error::VotingClosed));
    assert_eq!(g.withdraw(&mut ledger, MEMBER, 10), Err(Error::Unauthorized));
    assert_eq!(g.withdraw(&mut ledger, LEADER, 10), Err(Error::InsufficientFunds));
    g.disband(&mut ledger, LEADER).unwrap();
    assert_eq!(g.join(9), Err(Error::GuildDisbanded));
    assert_eq!(g.disband(&mut ledger, LEADER), Err(Error::AlreadyDisbanded));
}

#[test]
fn test_disband_keeps_division_remainder() {
    // 1001 split across two members: each receives 500, the remainder
    // stays with the treasury account.
    let mut g = GuildContract::new(CONTRACT);
    let mut ledger = make_ledger();
    g.initialize(LEADER, String::from("G"), TOKEN_ADDR).unwrap();
    g.join(MEMBER).unwrap();
    ledger.mint(TOKEN_ADMIN, CONTRACT, 1001).unwrap();
    g.disband(&mut ledger, LEADER).unwrap();
    assert_eq!(ledger.balance(LEADER), 500);
    assert_eq!(ledger.balance(MEMBER), 500);
    assert_eq!(ledger.balance(CONTRACT), 1);
}
