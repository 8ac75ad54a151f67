//! Reading the system proxy settings from the output of `reg query`.
use vstd::prelude::*;
use vstd::string::*;

use crate::text::{chars_eq_ignore_case, chars_of, eq_ignore_case, lines, lines_of, string_of, views, words, words_of};

verus! {

/// Words joined by single spaces.
pub open spec fn join_words(ws: Seq<Seq<char>>) -> Seq<char>
    decreases ws.len(),
{
    if ws.len() == 0 {
        Seq::empty()
    } else if ws.len() == 1 {
        ws[0]
    } else {
        join_words(ws.drop_last()) + " "@ + ws.last()
    }
}

/// The value of registry entry `name` in the lines of `reg query` output: the
/// first line whose first word is the name (without ASCII case) and that has
/// at least three words gives its words from the third on, joined by spaces.
pub open spec fn reg_value_in(ls: Seq<Seq<char>>, name: Seq<char>) -> Option<Seq<char>>
    decreases ls.len(),
{
    if ls.len() == 0 {
        None
    } else {
        let ws = words(ls[0]);
        if ws.len() >= 3 && eq_ignore_case(ws[0], name) {
            Some(join_words(ws.skip(2)))
        } else {
            reg_value_in(ls.drop_first(), name)
        }
    }
}

fn join_from(ws: &Vec<Vec<char>>, from: usize) -> (r: String)
    requires
        from <= ws@.len(),
    ensures
        r@ == join_words(views(ws@).skip(from as int)),
{
    let ghost all = views(ws@);
    let mut r = String::new();
    let mut i = from;
    assert(all.skip(from as int).take(0) =~= Seq::<Seq<char>>::empty());
    while i < ws.len()
        invariant
            from <= i <= ws@.len(),
            all == views(ws@),
            r@ == join_words(all.skip(from as int).take(i - from)),
        decreases ws.len() - i,
    {
        let ghost part = all.skip(from as int).take(i + 1 - from);
        assert(part.drop_last() =~= all.skip(from as int).take(i - from));
        assert(part.last() == ws@[i as int]@);
        let w = string_of(ws[i].as_slice());
        if i > from {
            r.append(" ");
        }
        r.append(w.as_str());
        i = i + 1;
    }
    assert(all.skip(from as int).take(i - from) =~= all.skip(from as int));
    r
}

/// The value of registry entry `name` in the output of `reg query`, if shown.
pub fn reg_query_value(output: &str, name: &str) -> (r: Option<String>)
    ensures
        match reg_value_in(lines(output@), name@) {
            Some(v) => r matches Some(x) && x@ == v,
            None => r is None,
        },
{
    let all = chars_of(output);
    let n = chars_of(name);
    let ls = lines_of(all.as_slice());
    let ghost s = views(ls@);
    let mut i: usize = 0;
    assert(s.skip(0) =~= s);
    while i < ls.len()
        invariant
            i <= ls@.len(),
            s == views(ls@),
            s == lines(output@),
            n@ == name@,
            reg_value_in(s, name@) == reg_value_in(s.skip(i as int), name@),
        decreases ls.len() - i,
    {
        let ghost rest = s.skip(i as int);
        assert(rest[0] == ls@[i as int]@);
        assert(rest.drop_first() =~= s.skip(i + 1));
        let ws = words_of(ls[i].as_slice());
        if ws.len() >= 3 {
            assert(views(ws@)[0] == ws@[0]@);
            if chars_eq_ignore_case(ws[0].as_slice(), n.as_slice()) {
                return Some(join_from(&ws, 2));
            }
        }
        i = i + 1;
    }
    None
}

/// A change to one value of the Internet Settings registry key.
#[derive(Debug, Clone, PartialEq, Eq)]
pub enum RegCommand {
    /// Set value `name` of type `kind` to `value`.
    SetValue { name: String, kind: String, value: String },
    /// Delete value `name`.
    DeleteValue { name: String },
}

/// A registry change as plain values.
pub enum RegChange {
    Put { name: Seq<char>, kind: Seq<char>, value: Seq<char> },
    Remove { name: Seq<char> },
}

impl View for RegCommand {
    type V = RegChange;

    open spec fn view(&self) -> RegChange {
        match self {
            RegCommand::SetValue { name, kind, value } => RegChange::Put {
                name: name@,
                kind: kind@,
                value: value@,
            },
            RegCommand::DeleteValue { name } => RegChange::Remove { name: name@ },
        }
    }
}

/// The changes of a list of commands.
pub open spec fn changes_of(v: Seq<RegCommand>) -> Seq<RegChange> {
    v.map_values(|c: RegCommand| c@)
}

/// The text of an optional value.
pub open spec fn opt_text(v: Option<String>) -> Option<Seq<char>> {
    match v {
        Some(s) => Some(s@),
        None => None,
    }
}

/// The change that puts a saved value back: set it when it was there, delete
/// it when it was not.
pub open spec fn restore_change(name: Seq<char>, kind: Seq<char>, value: Option<Seq<char>>) -> RegChange {
    match value {
        Some(v) => RegChange::Put { name, kind, value: v },
        None => RegChange::Remove { name },
    }
}

/// The changes that route the system through the local HTTP proxy at
/// `address` (local addresses bypass it).
pub open spec fn enable_changes(address: Seq<char>) -> Seq<RegChange> {
    seq![
        RegChange::Put { name: "ProxyEnable"@, kind: "REG_DWORD"@, value: "1"@ },
        RegChange::Put { name: "ProxyServer"@, kind: "REG_SZ"@, value: address },
        RegChange::Put { name: "ProxyOverride"@, kind: "REG_SZ"@, value: "<local>"@ },
    ]
}

/// The changes that put the saved values `enable`, `server` and `bypass`
/// back.
pub open spec fn restore_changes(
    enable: Option<Seq<char>>,
    server: Option<Seq<char>>,
    bypass: Option<Seq<char>>,
) -> Seq<RegChange> {
    seq![
        restore_change("ProxyEnable"@, "REG_DWORD"@, enable),
        restore_change("ProxyServer"@, "REG_SZ"@, server),
        restore_change("ProxyOverride"@, "REG_SZ"@, bypass),
    ]
}

/// The Internet Settings values after a change, the values given by name
/// (their data as `reg query` shows it).
pub open spec fn apply_change(reg: Map<Seq<char>, Seq<char>>, c: RegChange) -> Map<Seq<char>, Seq<char>> {
    match c {
        RegChange::Put { name, kind: _, value } => reg.insert(name, value),
        RegChange::Remove { name } => reg.remove(name),
    }
}

/// The values after the changes `cs`, in order.
pub open spec fn apply_changes(reg: Map<Seq<char>, Seq<char>>, cs: Seq<RegChange>) -> Map<
    Seq<char>,
    Seq<char>,
>
    decreases cs.len(),
{
    if cs.len() == 0 {
        reg
    } else {
        apply_changes(apply_change(reg, cs[0]), cs.drop_first())
    }
}

/// What a backup holds of value `name`: its data, or `None` when it is not set.
pub open spec fn saved_value(reg: Map<Seq<char>, Seq<char>>, name: Seq<char>) -> Option<Seq<char>> {
    if reg.contains_key(name) {
        Some(reg[name])
    } else {
        None
    }
}

/// Puts a saved value back: sets it when it was there, deletes it when it
/// was not.
pub fn restore_reg_value(name: &str, kind: &str, value: Option<&str>) -> (r: RegCommand)
    ensures
        r@ == restore_change(
            name@,
            kind@,
            match value {
                Some(v) => Some(v@),
                None => None,
            },
        ),
{
    match value {
        Some(v) => RegCommand::SetValue {
            name: String::from_str(name),
            kind: String::from_str(kind),
            value: String::from_str(v),
        },
        None => RegCommand::DeleteValue { name: String::from_str(name) },
    }
}

/// The changes that route the system through the local HTTP proxy at
/// `proxy_address` (local addresses bypass it).
pub fn proxy_enable_commands(proxy_address: &str) -> (r: Vec<RegCommand>)
    ensures
        changes_of(r@) == enable_changes(proxy_address@),
{
    let mut r: Vec<RegCommand> = Vec::new();
    r.push(restore_reg_value("ProxyEnable", "REG_DWORD", Some("1")));
    r.push(restore_reg_value("ProxyServer", "REG_SZ", Some(proxy_address)));
    r.push(restore_reg_value("ProxyOverride", "REG_SZ", Some("<local>")));
    assert(changes_of(r@) =~= enable_changes(proxy_address@));
    r
}

/// The changes that put saved proxy settings back.
pub fn proxy_restore_commands(backup: &crate::store::SystemProxyBackup) -> (r: Vec<RegCommand>)
    ensures
        changes_of(r@) == restore_changes(
            opt_text(backup.proxy_enable),
            opt_text(backup.proxy_server),
            opt_text(backup.proxy_override),
        ),
{
    let mut r: Vec<RegCommand> = Vec::new();
    r.push(restore_reg_value("ProxyEnable", "REG_DWORD", as_text(&backup.proxy_enable)));
    r.push(restore_reg_value("ProxyServer", "REG_SZ", as_text(&backup.proxy_server)));
    r.push(restore_reg_value("ProxyOverride", "REG_SZ", as_text(&backup.proxy_override)));
    assert(changes_of(r@) =~= restore_changes(
        opt_text(backup.proxy_enable),
        opt_text(backup.proxy_server),
        opt_text(backup.proxy_override),
    ));
    r
}

fn as_text(v: &Option<String>) -> (r: Option<&str>)
    ensures
        match v {
            Some(s) => r matches Some(x) && x@ == s@,
            None => r is None,
        },
{
    match v {
        Some(s) => Some(s.as_str()),
        None => None,
    }
}

} // verus!
