use picomux::script::undoing_script;
use picomux::vpn::{
    add_rule_command, delete_rule_command, tun_settings, vpn_whitelist, Whitelist,
};

#[test]
fn rule_commands() {
    assert_eq!(
        add_rule_command("1.2.3.4"),
        "/usr/bin/env ip rule add to 1.2.3.4 lookup main pref 1"
    );
    assert_eq!(
        delete_rule_command("::1"),
        "/usr/bin/env ip rule del to ::1 lookup main pref 1"
    );
}

#[test]
fn an_address_is_exempted_once() {
    let mut w = Whitelist::new();
    assert!(!w.contains((4, 0x01020304)));
    let add = Some("/usr/bin/env ip rule add to 1.2.3.4 lookup main pref 1".to_string());
    assert_eq!(vpn_whitelist(&w, (4, 0x01020304), "1.2.3.4"), add);
    assert!(!w.contains((4, 0x01020304)));
    assert_eq!(vpn_whitelist(&w, (4, 0x01020304), "1.2.3.4"), add);
    w.enter((4, 0x01020304), "1.2.3.4");
    assert!(w.contains((4, 0x01020304)));
    assert_eq!(vpn_whitelist(&w, (4, 0x01020304), "1.2.3.4"), None);
    assert!(!w.contains((6, 0x01020304)));
    assert!(vpn_whitelist(&w, (6, 0x01020304), "::102:304").is_some());
}

#[test]
fn clearing_ends_every_exemption() {
    let mut w = Whitelist::new();
    assert!(w.clear().is_empty());
    w.enter((4, 1), "0.0.0.1");
    w.enter((4, 2), "0.0.0.2");
    w.enter((4, 1), "again");
    w.enter((6, 1), "::1");
    let mut commands = w.clear();
    commands.sort();
    assert_eq!(
        commands,
        vec![
            delete_rule_command("0.0.0.1"),
            delete_rule_command("0.0.0.2"),
            delete_rule_command("::1"),
        ]
    );
    assert!(!w.contains((4, 1)));
    assert!(w.clear().is_empty());
    assert!(vpn_whitelist(&w, (4, 1), "0.0.0.1").is_some());
}

fn reference(script: &str) -> String {
    let kept: Vec<&str> = script
        .lines()
        .filter(|l| l.contains("-D") || l.contains("del") || l.contains("flush"))
        .collect();
    kept.join("\n")
}

#[test]
fn undoing_lines_are_kept() {
    let script = "#!/bin/sh\niptables -t nat -D OUTPUT 1\niptables -A X\nip rule del x\n\nip route flush table 8\n";
    let undo = undoing_script(script);
    assert_eq!(
        undo,
        "iptables -t nat -D OUTPUT 1\nip rule del x\nip route flush table 8"
    );
    assert_eq!(undo, reference(script));
    assert_eq!(undoing_script(&undo), undo);
}

#[test]
fn odd_scripts() {
    for script in [
        "",
        "\n",
        "del",
        "del\n",
        "\ndel",
        "a\r\ndel\r\nb",
        "del\r",
        "del\r\r\nflush",
        "de\nl",
        "-d -D",
        "flus",
        "flushflush\n\n\n-D\n",
        "d\u{e9}l\nmod\u{e9}l del\n",
        "\r\n\r\n",
    ] {
        assert_eq!(undoing_script(script), reference(script), "{:?}", script);
    }
}

#[test]
fn the_tunnel_device() {
    let s = tun_settings();
    assert_eq!(s.name, "tun-geph");
    assert_eq!(s.address, [100, 64, 89, 64]);
    assert_eq!(s.netmask, "255.255.255.0");
    assert_eq!(s.destination, "100.64.0.1");
    assert_eq!(s.mtu, 16384);
}
