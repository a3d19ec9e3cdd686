use rocket_macro::lifetime_pool::LifetimePool;

fn names(v: &[&str]) -> Vec<String> {
    v.iter().map(|s| s.to_string()).collect()
}

#[test]
fn pool_hands_out_names_from_the_end() {
    let occupied: Vec<String> = Vec::new();
    let mut pool = LifetimePool::new(&occupied);
    assert_eq!(pool.available(), 26);
    assert_eq!(pool.pop(), "'_z");
    assert_eq!(pool.pop(), "'_y");
    assert_eq!(pool.used, names(&["'_z", "'_y"]));
    assert_eq!(pool.available(), 24);
}

#[test]
fn pool_skips_occupied_names() {
    let occupied = names(&["'_z", "'_x", "'a"]);
    let mut pool = LifetimePool::new(&occupied);
    assert_eq!(pool.available(), 24);
    assert_eq!(pool.pop(), "'_y");
    assert_eq!(pool.pop(), "'_w");
    assert_eq!(pool.used, names(&["'_y", "'_w"]));
    assert_eq!(pool.available(), 22);
}

#[test]
fn pool_hands_out_every_name_once() {
    let occupied = names(&["'_m"]);
    let mut pool = LifetimePool::new(&occupied);
    let mut seen: Vec<String> = Vec::new();
    while pool.available() > 0 {
        let name = pool.pop();
        assert!(!seen.contains(&name));
        assert_ne!(name, "'_m");
        seen.push(name);
    }
    assert_eq!(seen.len(), 25);
    assert_eq!(seen.last().unwrap(), "'_a");
    assert_eq!(pool.into_used(), seen);
}

#[test]
fn pool_with_every_name_occupied_has_none() {
    let all: Vec<String> = (b'a'..=b'z').map(|c| format!("'_{}", c as char)).collect();
    let pool = LifetimePool::new(&all);
    assert_eq!(pool.available(), 0);
}

#[test]
fn pool_capacity_counts_only_pool_names() {
    // '_b and '_c are pool names, 'a and 'static are not
    let occupied = names(&["'_b", "'a", "'_c", "'static"]);
    let mut pool = LifetimePool::new(&occupied);
    assert_eq!(pool.available(), 24);
    let mut popped = Vec::new();
    for _ in 0..24 {
        popped.push(pool.pop());
    }
    assert_eq!(popped[0], "'_z");
    assert_eq!(popped[23], "'_a");
    assert!(!popped.contains(&s_("'_b")) && !popped.contains(&s_("'_c")));
    assert_eq!(pool.available(), 0);
}

fn s_(x: &str) -> String {
    x.to_string()
}
