use rustsmb::locks::{LockManager, LockOwner};
use rustsmb::sessions::{detached, get_or_create, remove, ScopeRegistry, SessionEntry, SessionTable};
use rustsmb::share_modes::ShareModeTable;

fn owner(n: u8) -> LockOwner {
    (1, [n; 16])
}

#[test]
fn exclusive_lock_blocks_other_owner() {
    let mut m = LockManager::new();
    assert!(m.try_acquire("f", &[(0, 10, true)], owner(1)));
    assert!(!m.try_acquire("f", &[(5, 10, true)], owner(2)));
    assert!(m.try_acquire("f", &[(100, 10, true)], owner(2)));
}

#[test]
fn shared_locks_coexist_but_block_exclusive() {
    let mut m = LockManager::new();
    assert!(m.try_acquire("f", &[(0, 10, false)], owner(1)));
    assert!(m.try_acquire("f", &[(0, 10, false)], owner(2)), "shared+shared ok");
    assert!(!m.try_acquire("f", &[(0, 10, true)], owner(3)), "shared blocks exclusive");
}

#[test]
fn exclusive_conflicts_even_for_same_owner() {
    let mut m = LockManager::new();
    assert!(m.try_acquire("f", &[(0, 10, true)], owner(1)));
    assert!(!m.try_acquire("f", &[(0, 10, true)], owner(1)), "overlapping exclusive conflicts");
    assert!(m.try_acquire("f", &[(10, 10, true)], owner(1)), "adjacent range ok");
}

#[test]
fn release_frees_the_range() {
    let mut m = LockManager::new();
    assert!(m.try_acquire("f", &[(0, 10, true)], owner(1)));
    assert!(!m.try_acquire("f", &[(0, 10, true)], owner(2)));
    m.release("f", &[(0, 10)], owner(1));
    assert!(m.try_acquire("f", &[(0, 10, true)], owner(2)), "range freed");
}

#[test]
fn release_session_drops_all() {
    let mut m = LockManager::new();
    assert!(m.try_acquire("a", &[(0, 10, true)], (7, [1; 16])));
    assert!(m.try_acquire("b", &[(0, 10, true)], (7, [2; 16])));
    m.release_session(7);
    assert!(m.try_acquire("a", &[(0, 10, true)], (9, [3; 16])));
    assert!(m.try_acquire("b", &[(0, 10, true)], (9, [4; 16])));
}

#[test]
fn locks_guard_reads_and_writes() {
    let mut m = LockManager::new();
    assert!(m.try_acquire("f", &[(0, 10, false)], owner(1)));
    assert!(!m.read_conflict("f", 0, 10, owner(2)), "shared locks let others read");
    assert!(m.write_conflict("f", 0, 10, owner(2)), "shared locks keep others from writing");
    assert!(!m.write_conflict("f", 10, 1, owner(2)), "behind the range");
    assert!(m.try_acquire("g", &[(0, 10, true)], owner(1)));
    assert!(m.read_conflict("g", 9, 1, owner(2)));
    assert!(!m.read_conflict("g", 9, 1, owner(1)), "one's own lock");
    m.release_owner(owner(1));
    assert!(!m.read_conflict("g", 9, 1, owner(2)));
}

const GENERIC_READ: u32 = 0x8000_0000;
const GENERIC_WRITE: u32 = 0x4000_0000;
const SHARE_READ: u32 = 0x1;
const SHARE_WRITE: u32 = 0x2;

#[test]
fn two_shared_readers_are_compatible() {
    let mut t = ShareModeTable::new();
    assert!(t.try_open("f", GENERIC_READ, SHARE_READ, (1, [1; 16])));
    assert!(t.try_open("f", GENERIC_READ, SHARE_READ, (1, [2; 16])));
}

#[test]
fn writer_without_share_write_blocks_second_writer() {
    let mut t = ShareModeTable::new();
    assert!(t.try_open("f", GENERIC_WRITE, SHARE_READ, (1, [1; 16])));
    assert!(!t.try_open("f", GENERIC_WRITE, SHARE_READ | SHARE_WRITE, (1, [2; 16])));
}

#[test]
fn exclusive_open_blocks_everyone() {
    let mut t = ShareModeTable::new();
    assert!(t.try_open("f", GENERIC_READ, 0, (1, [1; 16])), "first open ok");
    assert!(!t.try_open("f", GENERIC_READ, SHARE_READ, (1, [2; 16])), "no-share open blocks");
}

#[test]
fn close_reopens_share() {
    let mut t = ShareModeTable::new();
    assert!(t.try_open("f", GENERIC_WRITE, 0, (1, [1; 16])));
    assert!(!t.try_open("f", GENERIC_READ, SHARE_READ, (1, [2; 16])));
    t.close("f", (1, [1; 16]));
    assert!(t.try_open("f", GENERIC_READ, SHARE_READ, (1, [2; 16])), "freed after close");
}

#[test]
fn closing_a_session_closes_its_opens() {
    let mut t = ShareModeTable::new();
    assert!(t.try_open("f", GENERIC_READ, SHARE_READ, (1, [1; 16])));
    assert!(t.try_open("f", GENERIC_READ, SHARE_READ, (2, [2; 16])));
    t.close_session(1);
    assert_eq!(t.open_count("f"), 1);
    assert_eq!(t.open_count("g"), 0);
    t.close_session(1);
    assert_eq!(t.open_count("f"), 1);
}

#[test]
fn session_table_binds_and_forgets() {
    let mut t = SessionTable::new();
    assert!(t.get(7).is_none(), "unknown session");
    t.insert(
        7,
        SessionEntry {
            session_key: Some([9u8; 16]),
            signing_key: Some([8u8; 16]),
            dialect: Some(0x0311),
            user: "faraz".into(),
            guest: false,
            cipher: Some(2),
            enc_keys: None,
            encrypt_data: false,
        },
    );
    let e = t.get(7).expect("session present for binding");
    assert_eq!(e.signing_key, Some([8u8; 16]), "bound channel reuses signing key");
    assert_eq!(e.dialect, Some(0x0311));
    t.remove(7);
    assert!(t.get(7).is_none(), "forgotten on logoff");
}

#[test]
fn channels_share_what_one_of_them_changes() {
    let mut reg = ScopeRegistry::new();
    let a = get_or_create(&mut reg, 7);
    assert!(reg.scope(a).trees.is_empty());
    reg.scope_mut(a).trees.insert(1, "docs".to_string());
    assert_eq!(get_or_create(&mut reg, 7), a);
    let b = get_or_create(&mut reg, 8);
    assert!(a != b && reg.scope(b).trees.is_empty());
    remove(&mut reg, 7);
    let c = get_or_create(&mut reg, 7);
    assert!(c != a && reg.scope(c).trees.is_empty());
    assert_eq!(reg.scope(a).trees[&1], "docs");
    reg.scope_mut(a).trees.clear();
    assert!(reg.scope(a).trees.is_empty());
    assert_eq!(get_or_create(&mut reg, 8), b);
    let d = detached(&mut reg);
    assert!(d != c && reg.is_held(d));
    assert_eq!(get_or_create(&mut reg, 7), c);
}
