use nicks::registry::nickname_or_empty;
use nicks::AccountId;
use nicks::Nicks;

fn account(byte: u8) -> AccountId {
    AccountId::new([byte; 32])
}

#[test]
fn default_works() {
    let nicks = Nicks::default();
    assert_eq!(nicks.get_mine(account(1)), String::from(""));
}

#[test]
fn it_works() {
    let mut nicks = Nicks::new(account(1));
    assert_eq!(nicks.get_mine(account(1)), String::from(""));
    nicks.set_nick_name(account(1), String::from("LocDT"));
    assert_eq!(nicks.get_mine(account(1)), String::from("LocDT"));
}

#[test]
fn fresh_registry_then_first_nickname() {
    let x = account(0x58);
    let mut nicks = Nicks::default();
    assert_eq!(nicks.get_mine(x), "");
    nicks.set_nick_name(x, String::from("LocDT"));
    assert_eq!(nicks.get_mine(x), "LocDT");
}

#[test]
fn account_without_a_write_reads_empty() {
    let empty = Nicks::default();
    let deployed = Nicks::new(account(9));
    for byte in 0..=255u8 {
        assert_eq!(empty.get_mine(account(byte)), "");
        assert_eq!(deployed.get_mine(account(byte)), "");
    }
}

#[test]
fn account_without_a_write_reads_empty_after_others_wrote() {
    let mut nicks = Nicks::new(account(1));
    nicks.set_nick_name(account(1), String::from("deployer"));
    nicks.set_nick_name(account(2), String::from("second"));
    nicks.set_nick_name(account(3), String::from("third"));
    nicks.set_nick_name(account(2), String::from("second again"));
    assert_eq!(nicks.get_mine(account(4)), "");
    assert_eq!(nicks.get_mine(account(0)), "");
}

#[test]
fn read_gives_what_was_written() {
    let values = [
        String::from("LocDT"),
        String::from("a"),
        String::from("with spaces and\nnew lines\t"),
        String::from("żółw 🐢 ник"),
        "x".repeat(10_000),
    ];
    for (i, value) in values.iter().enumerate() {
        let who = account(i as u8);
        let mut nicks = Nicks::default();
        nicks.set_nick_name(who, value.clone());
        assert_eq!(&nicks.get_mine(who), value);
    }
}

#[test]
fn empty_nickname_can_be_stored() {
    let who = account(5);
    let mut nicks = Nicks::default();
    nicks.set_nick_name(who, String::from("something"));
    nicks.set_nick_name(who, String::new());
    assert_eq!(nicks.get_mine(who), "");
}

#[test]
fn write_does_not_touch_other_accounts() {
    let a = account(1);
    let b = account(2);
    let mut nicks = Nicks::new(a);
    assert_eq!(nicks.get_mine(b), "");
    nicks.set_nick_name(a, String::from("alice"));
    assert_eq!(nicks.get_mine(b), "");
    nicks.set_nick_name(b, String::from("bob"));
    nicks.set_nick_name(a, String::from("alice the second"));
    assert_eq!(nicks.get_mine(b), "bob");
    assert_eq!(nicks.get_mine(a), "alice the second");
}

#[test]
fn same_write_twice_is_one_write() {
    let a = account(7);
    let mut nicks = Nicks::default();
    nicks.set_nick_name(a, String::from("LocDT"));
    nicks.set_nick_name(a, String::from("LocDT"));
    assert_eq!(nicks.get_mine(a), "LocDT");
}

#[test]
fn later_write_replaces_earlier() {
    let a = account(7);
    let mut nicks = Nicks::default();
    nicks.set_nick_name(a, String::from("first"));
    nicks.set_nick_name(a, String::from("second"));
    assert_eq!(nicks.get_mine(a), "second");
    nicks.set_nick_name(a, String::from("first"));
    assert_eq!(nicks.get_mine(a), "first");
}

#[test]
fn deployer_entry_makes_no_difference() {
    let deployer = account(1);
    let other = account(2);
    let mut with_entry = Nicks::new(deployer);
    let mut without = Nicks::default();
    assert_eq!(with_entry.get_mine(deployer), without.get_mine(deployer));
    assert_eq!(with_entry.get_mine(other), without.get_mine(other));
    with_entry.set_nick_name(deployer, String::from("owner"));
    without.set_nick_name(deployer, String::from("owner"));
    assert_eq!(with_entry.get_mine(deployer), "owner");
    assert_eq!(without.get_mine(deployer), "owner");
    assert_eq!(with_entry.get_mine(other), "");
    assert_eq!(without.get_mine(other), "");
}

#[test]
fn accounts_that_differ_in_one_byte_are_kept_apart() {
    let base = [0xabu8; 32];
    let mut nicks = Nicks::default();
    nicks.set_nick_name(AccountId::new(base), String::from("base"));
    for place in 0..32 {
        let mut bytes = base;
        bytes[place] ^= 1;
        let near = AccountId::new(bytes);
        assert_eq!(nicks.get_mine(near), "");
        nicks.set_nick_name(near, format!("near {}", place));
    }
    assert_eq!(nicks.get_mine(AccountId::new(base)), "base");
    for place in 0..32 {
        let mut bytes = base;
        bytes[place] ^= 1;
        assert_eq!(nicks.get_mine(AccountId::new(bytes)), format!("near {}", place));
    }
}

#[test]
fn many_accounts_each_keep_their_own() {
    let mut nicks = Nicks::default();
    for byte in 0..200u8 {
        nicks.set_nick_name(account(byte), format!("nick {}", byte));
    }
    nicks.set_nick_name(account(0), String::from("first changed"));
    nicks.set_nick_name(account(100), String::from("middle changed"));
    nicks.set_nick_name(account(199), String::from("last changed"));
    for byte in 0..200u8 {
        let expected = match byte {
            0 => String::from("first changed"),
            100 => String::from("middle changed"),
            199 => String::from("last changed"),
            _ => format!("nick {}", byte),
        };
        assert_eq!(nicks.get_mine(account(byte)), expected);
    }
    for byte in 200..=255u8 {
        assert_eq!(nicks.get_mine(account(byte)), "");
    }
}

#[test]
fn read_does_not_change_the_registry() {
    let a = account(3);
    let mut nicks = Nicks::default();
    nicks.set_nick_name(a, String::from("stays"));
    for _ in 0..3 {
        assert_eq!(nicks.get_mine(a), "stays");
        assert_eq!(nicks.get_mine(account(4)), "");
    }
}

#[test]
fn nothing_stored_reads_as_empty() {
    assert_eq!(nickname_or_empty(None), "");
}

#[test]
fn stored_nickname_reads_as_itself() {
    assert_eq!(nickname_or_empty(Some(String::from("LocDT"))), "LocDT");
    assert_eq!(nickname_or_empty(Some(String::new())), "");
}

#[test]
fn identity_keeps_its_bytes() {
    let mut bytes = [0u8; 32];
    for (i, byte) in bytes.iter_mut().enumerate() {
        *byte = (i * 7) as u8;
    }
    let id = AccountId::new(bytes);
    assert_eq!(id.as_bytes(), &bytes);
}

#[test]
fn identities_are_equal_when_all_bytes_are() {
    assert_eq!(account(1), account(1));
    assert_ne!(account(1), account(2));
    let mut first = [0u8; 32];
    first[0] = 1;
    let mut last = [0u8; 32];
    last[31] = 1;
    assert_ne!(AccountId::new(first), AccountId::new([0u8; 32]));
    assert_ne!(AccountId::new(last), AccountId::new([0u8; 32]));
    assert_ne!(AccountId::new(first), AccountId::new(last));
    assert_eq!(AccountId::new(last), AccountId::new(last));
}
