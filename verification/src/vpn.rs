//! Routing around the tunnel: the addresses that are exempt from it, and the device itself.

use crate::tables::{
    rules_clear, rules_contain, rules_insert, rules_list, rules_new, rules_of, RuleMap,
};
use vstd::prelude::*;
use vstd::string::*;

verus! {

/// The command that exempts a destination from the tunnel.
pub open spec fn add_rule(dest: Seq<char>) -> Seq<char> {
    "/usr/bin/env ip rule add to "@ + dest + " lookup main pref 1"@
}

/// The command that ends a destination's exemption.
pub open spec fn delete_rule(dest: Seq<char>) -> Seq<char> {
    "/usr/bin/env ip rule del to "@ + dest + " lookup main pref 1"@
}

/// Writes the command that exempts a destination from the tunnel.
pub fn add_rule_command(dest: &str) -> (s: String)
    ensures
        s@ == add_rule(dest@),
{
    let mut s: String = "/usr/bin/env ip rule add to ".to_owned();
    s.append(dest);
    s.append(" lookup main pref 1");
    s
}

/// Writes the command that ends a destination's exemption.
pub fn delete_rule_command(dest: &str) -> (s: String)
    ensures
        s@ == delete_rule(dest@),
{
    let mut s: String = "/usr/bin/env ip rule del to ".to_owned();
    s.append(dest);
    s.append(" lookup main pref 1");
    s
}

/// The addresses that are exempt from the tunnel, each with its text. An address is its family
/// (4 or 6) and its bits.
pub struct Whitelist {
    rules: RuleMap,
}

impl View for Whitelist {
    type V = Map<(u8, u128), Seq<char>>;

    closed spec fn view(&self) -> Map<(u8, u128), Seq<char>> {
        rules_of(self.rules)
    }
}

/// The exempt addresses once an address is exempt: one that is already keeps its rule.
pub open spec fn whitelisted(
    rules: Map<(u8, u128), Seq<char>>,
    address: (u8, u128),
    dest: Seq<char>,
) -> Map<(u8, u128), Seq<char>> {
    if rules.dom().contains(address) {
        rules
    } else {
        rules.insert(address, dest)
    }
}

/// Whether `commands` ends the exemption of each address of `rules`, once each, in the order of
/// `addresses`.
pub open spec fn deletes_all(
    commands: Seq<String>,
    rules: Map<(u8, u128), Seq<char>>,
    addresses: Seq<(u8, u128)>,
) -> bool {
    &&& addresses.no_duplicates()
    &&& forall|a: (u8, u128)| #[trigger] addresses.contains(a) == rules.dom().contains(a)
    &&& commands.len() == addresses.len()
    &&& forall|i: int|
        0 <= i < commands.len() ==> (#[trigger] commands[i])@ == delete_rule(rules[addresses[i]])
}

impl Whitelist {
    /// No address is exempt.
    pub fn new() -> (w: Whitelist)
        ensures
            w@ == Map::<(u8, u128), Seq<char>>::empty(),
    {
        Whitelist { rules: rules_new() }
    }

    /// Whether an address is exempt.
    pub fn contains(&self, address: (u8, u128)) -> (b: bool)
        ensures
            b == self@.dom().contains(address),
    {
        rules_contain(&self.rules, address)
    }

    /// Enters an address, whose text is `dest`, once the command that exempts it was run. An
    /// address that is exempt already keeps its rule.
    pub fn enter(&mut self, address: (u8, u128), dest: &str)
        ensures
            final(self)@ == whitelisted(old(self)@, address, dest@),
    {
        if !rules_contain(&self.rules, address) {
            rules_insert(&mut self.rules, address, dest.to_owned());
        }
    }

    /// Ends all exemptions: gives the commands to run, in no particular order.
    pub fn clear(&mut self) -> (commands: Vec<String>)
        ensures
            final(self)@ == Map::<(u8, u128), Seq<char>>::empty(),
            exists|addresses: Seq<(u8, u128)>| deletes_all(commands@, old(self)@, addresses),
    {
        let entries: Vec<((u8, u128), String)> = rules_list(&self.rules);
        let ghost addresses: Seq<(u8, u128)> = Seq::new(
            entries@.len(),
            |i: int| entries@[i].0,
        );
        let mut commands: Vec<String> = Vec::new();
        let mut i: usize = 0;
        while i < entries.len()
            invariant
                i <= entries@.len(),
                commands@.len() == i,
                addresses.len() == entries@.len(),
                forall|k: int| 0 <= k < entries@.len() ==> addresses[k] == (#[trigger] entries@[k]).0,
                forall|k: int|
                    0 <= k < entries@.len() ==> old(self)@[(#[trigger] entries@[k]).0]
                        == entries@[k].1@,
                forall|k: int|
                    0 <= k < i ==> (#[trigger] commands@[k])@ == delete_rule(
                        old(self)@[addresses[k]],
                    ),
            decreases entries@.len() - i,
        {
            assert(old(self)@[entries@[i as int].0] == entries@[i as int].1@);
            commands.push(delete_rule_command(entries[i].1.as_str()));
            i = i + 1;
        }
        proof {
            assert forall|a: (u8, u128)| #[trigger]
                addresses.contains(a) == old(self)@.dom().contains(a) by {
                if old(self)@.dom().contains(a) {
                    let k = choose|k: int|
                        0 <= k < entries@.len() && (#[trigger] entries@[k]).0 == a;
                    assert(addresses[k] == a);
                }
            }
            assert(deletes_all(commands@, old(self)@, addresses));
        }
        rules_clear(&mut self.rules);
        commands
    }
}

/// Decides how to exempt an address, whose text is `dest`, from the tunnel: by a command to run,
/// after which the address is to be entered, unless the address is exempt already.
pub fn vpn_whitelist(whitelist: &Whitelist, address: (u8, u128), dest: &str) -> (r: Option<String>)
    ensures
        match r {
            Some(command) => !whitelist@.dom().contains(address) && command@ == add_rule(dest@),
            None => whitelist@.dom().contains(address),
        },
{
    if whitelist.contains(address) {
        None
    } else {
        Some(add_rule_command(dest))
    }
}

/// Exempting an address again changes nothing, whatever text it is given the second time.
pub proof fn law_whitelisting_is_idempotent(
    rules: Map<(u8, u128), Seq<char>>,
    address: (u8, u128),
    dest: Seq<char>,
    again: Seq<char>,
)
    ensures
        whitelisted(whitelisted(rules, address, dest), address, again) == whitelisted(
            rules,
            address,
            dest,
        ),
{
}

/// Every exemption is ended: the commands that clear a list end the exemption of each address on
/// it exactly once, and for the text that it was exempted with.
pub proof fn law_every_rule_is_deleted(
    commands: Seq<String>,
    rules: Map<(u8, u128), Seq<char>>,
    addresses: Seq<(u8, u128)>,
    address: (u8, u128),
    dest: Seq<char>,
)
    requires
        !rules.dom().contains(address),
        deletes_all(commands, whitelisted(rules, address, dest), addresses),
    ensures
        exists|i: int|
            0 <= i < commands.len() && (#[trigger] commands[i])@ == delete_rule(dest)
                && addresses[i] == address,
        forall|i: int, j: int|
            0 <= i < addresses.len() && 0 <= j < addresses.len() && addresses[i] == address
                && addresses[j] == address ==> i == j,
{
    let i = addresses.index_of(address);
    assert(addresses.contains(address));
    assert(addresses[i] == address);
    assert(commands[i]@ == delete_rule(dest));
}

/// The commands for a destination name it in full and differ only in the verb: what one does, the
/// other ends.
pub proof fn law_commands_name_the_destination(dest: Seq<char>)
    ensures
        ({
            let add = add_rule(dest);
            let del = delete_rule(dest);
            let n = dest.len() as int;
            &&& add.len() == del.len() == 47 + n
            &&& add.take(21) == "/usr/bin/env ip rule "@
            &&& add.subrange(21, 24) == "add"@
            &&& del.subrange(21, 24) == "del"@
            &&& add.subrange(24, 28) == " to "@
            &&& add.subrange(28, 28 + n) == dest
            &&& add.skip(28 + n) == " lookup main pref 1"@
            &&& add.take(21) == del.take(21)
            &&& add.skip(24) == del.skip(24)
        }),
{
    reveal_strlit("/usr/bin/env ip rule add to ");
    reveal_strlit("/usr/bin/env ip rule del to ");
    reveal_strlit("/usr/bin/env ip rule ");
    reveal_strlit("add");
    reveal_strlit("del");
    reveal_strlit(" to ");
    reveal_strlit(" lookup main pref 1");
    let add = add_rule(dest);
    let del = delete_rule(dest);
    let n = dest.len() as int;
    assert(add.take(21) =~= "/usr/bin/env ip rule "@);
    assert(add.subrange(21, 24) =~= "add"@);
    assert(del.subrange(21, 24) =~= "del"@);
    assert(add.subrange(24, 28) =~= " to "@);
    assert(add.subrange(28, 28 + n) =~= dest);
    assert(add.skip(28 + n) =~= " lookup main pref 1"@);
    assert(add.take(21) =~= del.take(21));
    assert(add.skip(24) =~= del.skip(24));
}

/// Exempting an address makes it exempt, under the text it is first given, and changes nothing
/// for any other address.
pub proof fn law_whitelisting_exempts_one_address(
    rules: Map<(u8, u128), Seq<char>>,
    address: (u8, u128),
    dest: Seq<char>,
    other: (u8, u128),
)
    ensures
        ({
            let next = whitelisted(rules, address, dest);
            &&& next.dom().contains(address)
            &&& next[address] == (if rules.dom().contains(address) {
                rules[address]
            } else {
                dest
            })
            &&& other != address ==> {
                &&& next.dom().contains(other) == rules.dom().contains(other)
                &&& rules.dom().contains(other) ==> next[other] == rules[other]
            }
        }),
{
}

/// Clearing a list runs one command for each address on it and no others: every command ends the
/// exemption of an address on the list, no two that of the same one, and no address is left out.
pub proof fn law_clearing_deletes_each_rule_once(
    commands: Seq<String>,
    rules: Map<(u8, u128), Seq<char>>,
    addresses: Seq<(u8, u128)>,
)
    requires
        deletes_all(commands, rules, addresses),
    ensures
        commands.len() == addresses.len(),
        forall|i: int|
            0 <= i < commands.len() ==> {
                &&& rules.dom().contains(#[trigger] addresses[i])
                &&& commands[i]@ == delete_rule(rules[addresses[i]])
            },
        forall|i: int, j: int|
            0 <= i < j < addresses.len() ==> #[trigger] addresses[i] != #[trigger] addresses[j],
        forall|a: (u8, u128)| #[trigger]
            rules.dom().contains(a) ==> exists|i: int|
                0 <= i < commands.len() && #[trigger] addresses[i] == a,
{
    assert forall|i: int| 0 <= i < commands.len() implies {
        &&& rules.dom().contains(#[trigger] addresses[i])
        &&& commands[i]@ == delete_rule(rules[addresses[i]])
    } by {
        assert(addresses.contains(addresses[i]));
    }
    assert forall|a: (u8, u128)| #[trigger] rules.dom().contains(a) implies exists|i: int|
        0 <= i < commands.len() && #[trigger] addresses[i] == a by {
        assert(addresses.contains(a));
        let i = addresses.index_of(a);
        assert(addresses[i] == a);
    }
}

/// The settings of the tunnel device.
#[derive(Clone, Copy, Debug)]
pub struct TunSettings {
    pub name: &'static str,
    pub address: [u8; 4],
    pub netmask: &'static str,
    pub destination: &'static str,
    pub mtu: i32,
}

/// The settings that the tunnel device is made with.
pub fn tun_settings() -> (s: TunSettings)
    ensures
        s.name@ == "tun-geph"@,
        s.address@ == seq![100u8, 64, 89, 64],
        s.netmask@ == "255.255.255.0"@,
        s.destination@ == "100.64.0.1"@,
        s.mtu == 16384,
{
    let address: [u8; 4] = [100, 64, 89, 64];
    assert(address@ =~= seq![100u8, 64, 89, 64]);
    TunSettings {
        name: "tun-geph",
        address,
        netmask: "255.255.255.0",
        destination: "100.64.0.1",
        mtu: 16384,
    }
}

} // verus!
