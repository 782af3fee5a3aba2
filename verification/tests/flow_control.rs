use picomux::frame::{CMD_FIN, CMD_PSH};
use picomux::pump::SendPump;
use picomux::window::{Delivery, ReceiveWindow, INIT_WINDOW, MAX_WINDOW, MSS};

#[test]
fn a_fresh_window() {
    let w = ReceiveWindow::new();
    assert_eq!(w.remote(), INIT_WINDOW);
    assert_eq!(w.target(), MAX_WINDOW);
    assert_eq!((INIT_WINDOW, MAX_WINDOW, MSS), (10, 500, 8192));
}

#[test]
fn the_first_delivery_opens_the_window() {
    let mut w = ReceiveWindow::new();
    let d = w.on_delivered(0, 0);
    assert_eq!(
        d,
        Delivery {
            adjusted: false,
            grant: Some(491)
        }
    );
    assert_eq!(w.remote(), 500);
}

#[test]
fn grants_are_held_back_until_they_are_worth_a_frame() {
    let mut w = ReceiveWindow::new();
    w.on_delivered(0, 0);
    for _ in 0..49 {
        assert_eq!(w.on_delivered(0, 0).grant, None);
    }
    assert_eq!(w.remote(), 451);
    assert_eq!(w.on_delivered(0, 0).grant, Some(50));
    assert_eq!(w.remote(), 500);
}

#[test]
fn delay_halves_the_window_once_per_interval() {
    let mut w = ReceiveWindow::new();
    w.on_delivered(0, 0);
    assert!(!w.on_delivered(51, 250).adjusted);
    assert_eq!(w.target(), 500);
    let d = w.on_delivered(51, 251);
    assert!(d.adjusted);
    assert_eq!(d.grant, None);
    assert_eq!(w.target(), 250);
    assert_eq!(w.remote(), 498);
}

#[test]
fn the_window_grows_by_one_without_delay() {
    let mut w = ReceiveWindow::new();
    w.on_delivered(1000, 1000);
    assert_eq!(w.target(), 250);
    let d = w.on_delivered(50, 251);
    assert!(d.adjusted);
    assert_eq!(w.target(), 251);
    w.on_delivered(50, 250);
    assert_eq!(w.target(), 251);
}

#[test]
fn the_window_stops_at_its_bounds() {
    let mut w = ReceiveWindow::new();
    for _ in 0..2000 {
        w.on_delivered(1000, 1000);
        assert!(w.remote() >= 1 && w.remote() <= MAX_WINDOW);
        assert!(w.target() >= 3);
    }
    assert_eq!(w.target(), 3);
    for _ in 0..2000 {
        w.on_delivered(0, 1000);
        assert!(w.remote() >= 1 && w.remote() <= MAX_WINDOW);
    }
    assert_eq!(w.target(), 500);
}

#[test]
fn a_pump_spends_one_permit_on_each_chunk() {
    let mut p = SendPump::new(42);
    assert!(!p.is_armed());
    p.on_permit();
    assert!(p.is_armed());
    let f = p.on_read(b"data").unwrap();
    assert_eq!(f.header.command, CMD_PSH);
    assert_eq!(f.header.stream_id, 42);
    assert_eq!(f.header.body_len, 4);
    assert_eq!(&f.body[..], b"data");
    assert!(!p.is_armed());
    p.on_permit();
    assert!(!p.is_ended());
    assert!(p.on_read(b"").is_none());
    assert!(!p.is_armed());
    assert!(p.is_ended());
    assert_eq!(p.close().header.command, CMD_FIN);
    assert_eq!(p.close().header.stream_id, 42);
}

/// Runs one direction of a stream with random timing and looks at the queue all the way.
#[test]
fn the_receive_queue_never_overflows() {
    let mut permits = INIT_WINDOW;
    let mut on_wire = 0usize;
    let mut queued = 0usize;
    let mut grants: Vec<u16> = Vec::new();
    let mut pump = SendPump::new(1);
    let mut window = ReceiveWindow::new();
    let mut seed = 12345u64;
    for _ in 0..200000 {
        seed = seed.wrapping_mul(6364136223846793005).wrapping_add(1442695040888963407);
        let roll = (seed >> 33) % 10;
        let delay = ((seed >> 40) % 100) as u128;
        let pause = ((seed >> 45) % 500) as u128;
        if roll < 4 {
            if permits > 0 {
                permits -= 1;
                pump.on_permit();
                assert!(pump.on_read(b"x").is_some());
                on_wire += 1;
            }
        } else if roll < 7 {
            if on_wire > 0 {
                assert!(queued < MAX_WINDOW);
                on_wire -= 1;
                queued += 1;
            }
        } else if roll < 9 {
            if queued > 0 {
                queued -= 1;
                if let Some(g) = window.on_delivered(delay, pause).grant {
                    grants.push(g);
                }
            }
        } else if !grants.is_empty() {
            permits += grants.remove(0) as usize;
        }
        let granted: usize = grants.iter().map(|g| *g as usize).sum();
        assert_eq!(permits + on_wire + queued + granted, window.remote());
    }
}

/// Without grants, a sender gets no further than the permits that a fresh stream has.
#[test]
fn a_sender_keeps_to_its_credit() {
    let written: Vec<u8> = (0..MSS * 20).map(|i| (i % 251) as u8).collect();
    let mut pump = SendPump::new(4);
    let mut sent: Vec<u8> = Vec::new();
    let mut frames = 0;
    for permits in [INIT_WINDOW, 3] {
        for _ in 0..permits {
            pump.on_permit();
            let f = pump.on_read(&written[sent.len()..sent.len() + MSS]).unwrap();
            assert_eq!(f.header.version, 1);
            assert_eq!(f.header.body_len as usize, f.body.len());
            sent.extend_from_slice(&f.body);
            frames += 1;
        }
    }
    assert_eq!(frames, 13);
    assert_eq!(sent.len(), 13 * 8192);
    assert_eq!(sent, &written[..13 * 8192]);
}

/// A stream may be closed with a permit in hand; nothing is sent on it afterwards.
#[test]
fn closing_is_the_end() {
    let mut p = SendPump::new(9);
    p.on_permit();
    assert_eq!(p.close().bytes(), vec![1, 1, 0, 0, 9, 0, 0, 0]);
    assert!(p.is_ended() && !p.is_armed());
}
