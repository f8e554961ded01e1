use conn_pool::{MyPool, MyPooledConn};

/// A stand-in for a connection: the number it was made with and how often it
/// was used.
#[derive(Debug, PartialEq, Eq)]
struct Conn {
    serial: u32,
    uses: u32,
}

fn make(serial: u32) -> impl FnOnce(&String) -> Result<Conn, String> {
    move |_opts: &String| Ok(Conn { serial, uses: 0 })
}

fn fail(msg: &str) -> impl FnOnce(&String) -> Result<Conn, String> {
    let msg = msg.to_string();
    move |_opts: &String| Err(msg)
}

fn never() -> impl FnOnce(&String) -> Result<Conn, String> {
    |_opts: &String| panic!("the factory must not be asked")
}

fn lease(r: Result<Option<MyPooledConn<Conn>>, String>) -> MyPooledConn<Conn> {
    r.expect("no failure").expect("no wait")
}

fn books_add_up(pool: &MyPool<Conn, String>) {
    assert!(pool.count() <= pool.cap());
    assert_eq!(pool.idle_count() + pool.leased_count(), pool.count());
}

#[test]
fn new_pool_is_empty() {
    let pool: MyPool<Conn, String> = MyPool::new(3, "root".to_string());
    assert_eq!(pool.cap(), 3);
    assert_eq!(pool.count(), 0);
    assert_eq!(pool.idle_count(), 0);
    assert_eq!(pool.leased_count(), 0);
    assert_eq!(pool.opts(), "root");
    assert!(!pool.is_leased(0));
}

#[test]
fn capacity_two_third_request_waits_until_a_return() {
    let mut pool: MyPool<Conn, String> = MyPool::new(2, String::new());
    let first = lease(pool.get_conn(make(1)));
    let second = lease(pool.get_conn(make(2)));
    assert_eq!(pool.count(), 2);
    assert_eq!(first.conn().serial, 1);
    assert_eq!(second.conn().serial, 2);

    let third = pool.get_conn(never());
    assert!(matches!(third, Ok(None)));
    assert_eq!(pool.count(), 2);

    pool.put_back(first);
    assert_eq!(pool.count(), 2);
    let third = lease(pool.get_conn(never()));
    assert_eq!(third.conn().serial, 1);
    assert_eq!(pool.count(), 2);
    assert_eq!(second.slot(), 1);
}

#[test]
fn capacity_one_failed_creation_then_success() {
    let mut pool: MyPool<Conn, String> = MyPool::new(1, String::new());
    let first = pool.get_conn(fail("connection refused"));
    assert_eq!(first.err(), Some("connection refused".to_string()));
    assert_eq!(pool.count(), 0);

    let second = pool.get_conn(make(7));
    assert!(matches!(second, Ok(Some(_))));
    assert_eq!(pool.count(), 1);
    let second = lease(second);
    assert_eq!(second.slot(), 0);
    assert_eq!(second.conn().serial, 7);
}

#[test]
fn capacity_bounds_every_moment_of_a_run() {
    let mut pool: MyPool<Conn, String> = MyPool::new(3, String::new());
    let mut out: Vec<MyPooledConn<Conn>> = Vec::new();
    let mut serial = 0;
    // Ask five times, give two back, ask three times, give all back.
    for round in 0..3 {
        let asks = if round == 0 { 5 } else { 3 };
        for _ in 0..asks {
            serial += 1;
            match pool.get_conn(make(serial)) {
                Ok(Some(l)) => out.push(l),
                Ok(None) => {
                    assert_eq!(pool.count(), 3);
                    assert_eq!(pool.idle_count(), 0);
                }
                Err(e) => panic!("unexpected failure: {}", e),
            }
            books_add_up(&pool);
            assert_eq!(pool.leased_count(), out.len());
        }
        let gives = if round == 2 { out.len() } else { 2 };
        for _ in 0..gives {
            let l = out.remove(0);
            assert!(pool.is_leased(l.slot()));
            pool.put_back(l);
            books_add_up(&pool);
            assert_eq!(pool.leased_count(), out.len());
        }
    }
    assert_eq!(pool.count(), 3);
    assert_eq!(pool.idle_count(), 3);
    assert_eq!(pool.leased_count(), 0);
}

#[test]
fn leases_in_hand_never_share_a_connection() {
    let mut pool: MyPool<Conn, String> = MyPool::new(4, String::new());
    let a = lease(pool.get_conn(make(10)));
    let b = lease(pool.get_conn(make(20)));
    let c = lease(pool.get_conn(make(30)));
    assert_eq!((a.slot(), b.slot(), c.slot()), (0, 1, 2));
    pool.put_back(b);
    let d = lease(pool.get_conn(never()));
    let e = lease(pool.get_conn(make(40)));
    let held = [&a, &c, &d, &e];
    for i in 0..held.len() {
        for j in 0..held.len() {
            if i != j {
                assert_ne!(held[i].slot(), held[j].slot());
                assert_ne!(held[i].conn().serial, held[j].conn().serial);
            }
        }
        assert!(pool.is_leased(held[i].slot()));
    }
    assert_eq!(d.slot(), 1);
    assert_eq!(d.conn().serial, 20);
    assert_eq!(e.slot(), 3);
    assert_eq!(pool.idle_count(), 0);
}

#[test]
fn a_return_ends_the_wait() {
    let mut pool: MyPool<Conn, String> = MyPool::new(1, String::new());
    let only = lease(pool.get_conn(make(1)));
    for _ in 0..3 {
        assert!(matches!(pool.get_conn(never()), Ok(None)));
    }
    assert_eq!(pool.leased_count(), pool.cap());
    pool.put_back(only);
    let again = pool.get_conn(never());
    assert!(matches!(again, Ok(Some(_))));
    assert_eq!(lease(again).conn().serial, 1);
}

#[test]
fn failed_creation_uses_up_no_slot() {
    let mut pool: MyPool<Conn, String> = MyPool::new(2, String::new());
    let a = lease(pool.get_conn(make(1)));
    assert_eq!(pool.count(), 1);
    for attempt in 0..4 {
        let r = pool.get_conn(fail("down"));
        assert_eq!(r.err(), Some("down".to_string()));
        assert_eq!(pool.count(), 1, "attempt {}", attempt);
        assert_eq!(pool.idle_count(), 0);
        assert_eq!(pool.leased_count(), 1);
        assert!(!pool.is_leased(1));
    }
    let b = lease(pool.get_conn(make(2)));
    assert_eq!(b.slot(), 1);
    assert_eq!(pool.count(), 2);
    assert!(pool.is_leased(a.slot()));
    assert!(pool.is_leased(b.slot()));
}

#[test]
fn a_return_adds_exactly_one_idle_connection() {
    let mut pool: MyPool<Conn, String> = MyPool::new(2, String::new());
    let a = lease(pool.get_conn(make(1)));
    let b = lease(pool.get_conn(make(2)));
    assert_eq!((pool.idle_count(), pool.leased_count()), (0, 2));
    let slot = a.slot();
    pool.put_back(a);
    assert_eq!((pool.idle_count(), pool.leased_count()), (1, 1));
    assert_eq!(pool.count(), 2);
    assert!(!pool.is_leased(slot));
    assert!(pool.is_leased(b.slot()));
    pool.put_back(b);
    assert_eq!((pool.idle_count(), pool.leased_count()), (2, 0));
}

#[test]
fn capacity_zero_always_waits() {
    let mut pool: MyPool<Conn, String> = MyPool::new(0, String::new());
    for _ in 0..5 {
        assert!(matches!(pool.get_conn(never()), Ok(None)));
        assert_eq!(pool.count(), 0);
    }
    assert!(pool.close().is_empty());
}

#[test]
fn idle_connections_are_reused_last_in_first_out() {
    let mut pool: MyPool<Conn, String> = MyPool::new(3, String::new());
    let a = lease(pool.get_conn(make(1)));
    let b = lease(pool.get_conn(make(2)));
    let c = lease(pool.get_conn(make(3)));
    pool.put_back(b);
    pool.put_back(a);
    pool.put_back(c);
    assert_eq!(lease(pool.get_conn(never())).conn().serial, 3);
    assert_eq!(lease(pool.get_conn(never())).conn().serial, 1);
    assert_eq!(lease(pool.get_conn(never())).conn().serial, 2);
    assert!(matches!(pool.get_conn(never()), Ok(None)));
}

#[test]
fn factory_is_asked_only_when_nothing_is_idle() {
    let mut pool: MyPool<Conn, String> = MyPool::new(2, String::new());
    let mut asked = 0;
    let a = lease(pool.get_conn(|_: &String| -> Result<Conn, String> {
        asked += 1;
        Ok(Conn { serial: 1, uses: 0 })
    }));
    assert_eq!(asked, 1);
    pool.put_back(a);
    let a = lease(pool.get_conn(|_: &String| -> Result<Conn, String> {
        asked += 1;
        Ok(Conn { serial: 2, uses: 0 })
    }));
    assert_eq!(asked, 1);
    assert_eq!(a.conn().serial, 1);
    let b = lease(pool.get_conn(|_: &String| -> Result<Conn, String> {
        asked += 1;
        Ok(Conn { serial: 3, uses: 0 })
    }));
    assert_eq!(asked, 2);
    assert_eq!(b.conn().serial, 3);
    let none = pool.get_conn(|_: &String| -> Result<Conn, String> {
        asked += 1;
        Ok(Conn { serial: 4, uses: 0 })
    });
    assert!(matches!(none, Ok(None)));
    assert_eq!(asked, 2);
}

#[test]
fn factory_gets_the_options_of_the_pool() {
    let mut pool: MyPool<Conn, String> = MyPool::new(1, "user=root".to_string());
    let mut seen = String::new();
    let l = lease(pool.get_conn(|opts: &String| -> Result<Conn, String> {
        seen = opts.clone();
        Ok(Conn { serial: opts.len() as u32, uses: 0 })
    }));
    assert_eq!(seen, "user=root");
    assert_eq!(l.conn().serial, 9);
    assert_eq!(pool.opts(), "user=root");
}

#[test]
fn work_done_through_a_lease_stays_with_the_connection() {
    let mut pool: MyPool<Conn, String> = MyPool::new(1, String::new());
    let mut l = lease(pool.get_conn(make(5)));
    l.conn_mut().uses += 1;
    l.conn_mut().uses += 1;
    assert_eq!(l.conn(), &Conn { serial: 5, uses: 2 });
    assert_eq!(l.slot(), 0);
    pool.put_back(l);
    let l = lease(pool.get_conn(never()));
    assert_eq!(l.conn(), &Conn { serial: 5, uses: 2 });
    assert_eq!(l.slot(), 0);
}

#[test]
fn new_conn_books_what_the_factory_made() {
    let mut pool: MyPool<Conn, String> = MyPool::new(2, String::new());
    let made: Result<Conn, String> = Ok(Conn { serial: 8, uses: 0 });
    let l = pool.new_conn(made).expect("booked");
    assert_eq!(l.slot(), 0);
    assert_eq!(l.conn().serial, 8);
    assert_eq!(pool.count(), 1);
    assert!(pool.is_leased(0));

    let failed: Result<Conn, String> = Err("timeout".to_string());
    assert_eq!(pool.new_conn(failed).err(), Some("timeout".to_string()));
    assert_eq!(pool.count(), 1);
    assert!(!pool.is_leased(1));

    let made: Result<Conn, String> = Ok(Conn { serial: 9, uses: 0 });
    let l = pool.new_conn(made).expect("booked");
    assert_eq!(l.slot(), 1);
    assert_eq!(pool.count(), 2);
}

#[test]
fn is_leased_tells_idle_lent_and_unmade_apart() {
    let mut pool: MyPool<Conn, String> = MyPool::new(3, String::new());
    let a = lease(pool.get_conn(make(1)));
    let b = lease(pool.get_conn(make(2)));
    pool.put_back(a);
    assert!(!pool.is_leased(0));
    assert!(pool.is_leased(b.slot()));
    assert!(!pool.is_leased(2));
    assert!(!pool.is_leased(usize::MAX));
}

#[test]
fn close_gives_up_idle_connections_last_returned_first() {
    let mut pool: MyPool<Conn, String> = MyPool::new(4, String::new());
    let a = lease(pool.get_conn(make(1)));
    let b = lease(pool.get_conn(make(2)));
    let c = lease(pool.get_conn(make(3)));
    let d = lease(pool.get_conn(make(4)));
    pool.put_back(c);
    pool.put_back(a);
    pool.put_back(d);
    let given_up: Vec<u32> = pool.close().into_iter().map(|c| c.serial).collect();
    assert_eq!(given_up, vec![4, 1, 3]);
    assert_eq!(b.conn().serial, 2);
}
