use vstd::prelude::*;
use vstd::string::*;

use crate::actions::keymap::{Keymap, KeymapError, KeymapRegistry, bound_name_in, duplicate_message, key_code};
use crate::actions::Action;
use crate::config::ConfigError;
use crate::text::{parse_decimal, spec_parse_decimal, spec_strip_prefix, str_eq, strip_prefix};

verus! {

/// Modifier bit of the Alt key, as the system's hot-key flags have it.
pub const MOD_ALT: u32 = 0x0001;
/// Modifier bit of the Ctrl key.
pub const MOD_CONTROL: u32 = 0x0002;
/// Modifier bit of the Shift key.
pub const MOD_SHIFT: u32 = 0x0004;
/// Modifier bit of the Windows key.
pub const MOD_WIN: u32 = 0x0008;

/// Virtual-key codes of the named keys.
pub const VK_TAB: u32 = 0x09;
pub const VK_RETURN: u32 = 0x0D;
pub const VK_ESCAPE: u32 = 0x1B;
pub const VK_SPACE: u32 = 0x20;
pub const VK_LEFT: u32 = 0x25;
pub const VK_UP: u32 = 0x26;
pub const VK_RIGHT: u32 = 0x27;
pub const VK_DOWN: u32 = 0x28;
pub const VK_F1: u32 = 0x70;

/// One key binding of the configuration: a combo such as `ctrl+alt+1` and the name of
/// the action it triggers.
pub struct KeymapEntry {
    pub combo: String,
    pub action: String,
}

/// The modifier bit that `tok` names.
pub open spec fn spec_mod_bit(tok: Seq<char>) -> Option<u32> {
    if tok == "ctrl"@ || tok == "control"@ {
        Some(MOD_CONTROL)
    } else if tok == "alt"@ {
        Some(MOD_ALT)
    } else if tok == "shift"@ {
        Some(MOD_SHIFT)
    } else if tok == "win"@ || tok == "super"@ {
        Some(MOD_WIN)
    } else {
        None
    }
}

/// The modifier bit that `tok` names.
pub fn mod_bit(tok: &str) -> (m: Option<u32>)
    ensures
        m == spec_mod_bit(tok@),
{
    if str_eq(tok, "ctrl") || str_eq(tok, "control") {
        Some(MOD_CONTROL)
    } else if str_eq(tok, "alt") {
        Some(MOD_ALT)
    } else if str_eq(tok, "shift") {
        Some(MOD_SHIFT)
    } else if str_eq(tok, "win") || str_eq(tok, "super") {
        Some(MOD_WIN)
    } else {
        None
    }
}

/// Whether `c` is an ASCII letter or digit.
pub open spec fn is_ascii_alnum(c: char) -> bool {
    ('a' <= c <= 'z') || ('A' <= c <= 'Z') || ('0' <= c <= '9')
}

/// The code of `c` with an ASCII lower-case letter made upper-case.
pub open spec fn upper_code(c: char) -> u32 {
    if 'a' <= c <= 'z' {
        (c as u32 - 32) as u32
    } else {
        c as u32
    }
}

/// The virtual-key code that `tok` names: a single ASCII letter or digit (its upper-case
/// character code), `f1` to `f24`, or a named key.
pub open spec fn spec_vk_from_name(tok: Seq<char>) -> Option<u32> {
    if tok.len() == 1 && (tok[0] as u32) < 128 && is_ascii_alnum(tok[0]) {
        Some(upper_code(tok[0]))
    } else if let Some(n) = (match spec_strip_prefix(tok, "f"@) {
        Some(rest) => spec_parse_decimal(rest, u32::MAX as nat),
        None => None,
    }) {
        if 1 <= n <= 24 {
            Some((VK_F1 + n - 1) as u32)
        } else {
            spec_named_vk(tok)
        }
    } else {
        spec_named_vk(tok)
    }
}

/// The virtual-key code of the key named `tok`.
pub open spec fn spec_named_vk(tok: Seq<char>) -> Option<u32> {
    if tok == "left"@ {
        Some(VK_LEFT)
    } else if tok == "right"@ {
        Some(VK_RIGHT)
    } else if tok == "up"@ {
        Some(VK_UP)
    } else if tok == "down"@ {
        Some(VK_DOWN)
    } else if tok == "space"@ {
        Some(VK_SPACE)
    } else if tok == "enter"@ || tok == "return"@ {
        Some(VK_RETURN)
    } else if tok == "esc"@ || tok == "escape"@ {
        Some(VK_ESCAPE)
    } else if tok == "tab"@ {
        Some(VK_TAB)
    } else {
        None
    }
}

/// `a` and `b` name the same key: they are equal, or both are among `enter`/`return`, or
/// both among `esc`/`escape`.
pub open spec fn same_key_name(a: Seq<char>, b: Seq<char>) -> bool {
    ||| a == b
    ||| (a == "enter"@ || a == "return"@) && (b == "enter"@ || b == "return"@)
    ||| (a == "esc"@ || a == "escape"@) && (b == "esc"@ || b == "escape"@)
}

/// Every named key has a virtual-key code of its own: two names give the same code only if
/// they name the same key, and the arrow names give the arrow keys' codes (`down` the down
/// arrow). A key name in a combo is read as that key: neither the single-character nor
/// the function-key reading takes it over.
pub proof fn lemma_named_keys_have_own_codes(a: Seq<char>, b: Seq<char>)
    ensures
        spec_named_vk(a) is Some && spec_named_vk(a) == spec_named_vk(b) ==> same_key_name(a, b),
        spec_vk_from_name("left"@) == Some(VK_LEFT),
        spec_vk_from_name("right"@) == Some(VK_RIGHT),
        spec_vk_from_name("up"@) == Some(VK_UP),
        spec_vk_from_name("down"@) == Some(VK_DOWN),
        spec_named_vk(a) is Some ==> spec_vk_from_name(a) == spec_named_vk(a),
{
    reveal_strlit("left");
    reveal_strlit("right");
    reveal_strlit("up");
    reveal_strlit("down");
    reveal_strlit("space");
    reveal_strlit("enter");
    reveal_strlit("return");
    reveal_strlit("esc");
    reveal_strlit("escape");
    reveal_strlit("tab");
    reveal_strlit("f");
    assert forall|t: Seq<char>| spec_named_vk(t) is Some implies #[trigger] spec_vk_from_name(t) == spec_named_vk(t) by {
        assert(t.len() >= 2);
        assert(t[0] != 'f');
        crate::text::lemma_not_prefix(t, "f"@, 0);
    }
    assert(spec_named_vk("left"@) == Some(VK_LEFT));
    assert(spec_named_vk("right"@) == Some(VK_RIGHT));
    assert(spec_named_vk("up"@) == Some(VK_UP));
    assert("down"@[0] != "left"@[0]);
    assert("down"@.len() != "right"@.len() && "down"@.len() != "up"@.len());
    assert(spec_named_vk("down"@) == Some(VK_DOWN));
}

fn named_vk(tok: &str) -> (v: Option<u32>)
    ensures
        v == spec_named_vk(tok@),
{
    if str_eq(tok, "left") {
        Some(VK_LEFT)
    } else if str_eq(tok, "right") {
        Some(VK_RIGHT)
    } else if str_eq(tok, "up") {
        Some(VK_UP)
    } else if str_eq(tok, "down") {
        Some(VK_DOWN)
    } else if str_eq(tok, "space") {
        Some(VK_SPACE)
    } else if str_eq(tok, "enter") || str_eq(tok, "return") {
        Some(VK_RETURN)
    } else if str_eq(tok, "esc") || str_eq(tok, "escape") {
        Some(VK_ESCAPE)
    } else if str_eq(tok, "tab") {
        Some(VK_TAB)
    } else {
        None
    }
}

/// The virtual-key code that `tok` names: a single ASCII letter or digit (its upper-case
/// character code), `f1` to `f24`, or one of `left`, `right`, `up`, `down`, `space`,
/// `enter`/`return`, `esc`/`escape`, `tab`.
pub fn vk_from_name(tok: &str) -> (v: Option<u32>)
    ensures
        v == spec_vk_from_name(tok@),
{
    if tok.unicode_len() == 1 {
        let c = tok.get_char(0);
        if (c as u32) < 128 && (('a' <= c && c <= 'z') || ('A' <= c && c <= 'Z') || ('0' <= c && c <= '9')) {
            if 'a' <= c && c <= 'z' {
                return Some(c as u32 - 32);
            } else {
                return Some(c as u32);
            }
        }
    }
    let num = match strip_prefix(tok, "f") {
        Some(rest) => parse_decimal(rest, u32::MAX as u64),
        None => None,
    };
    match num {
        Some(n) => {
            if 1 <= n && n <= 24 {
                return Some(VK_F1 + n as u32 - 1);
            }
        },
        None => {},
    }
    named_vk(tok)
}

/// `s` cut at every `+`, as `str::split` cuts it: always at least one piece, some of
/// them possibly empty.
pub open spec fn split_plus(s: Seq<char>) -> Seq<Seq<char>>
    decreases s.len(),
{
    if s.len() == 0 {
        seq![Seq::<char>::empty()]
    } else {
        let init = split_plus(s.drop_last());
        if s.last() == '+' {
            init.push(Seq::<char>::empty())
        } else {
            init.update(init.len() - 1, init.last().push(s.last()))
        }
    }
}

/// The modifier bits that the first `n` pieces of `toks` name together, if each names one.
pub open spec fn mods_of(toks: Seq<Seq<char>>, n: int) -> Option<u32>
    decreases n,
{
    if n <= 0 {
        Some(0u32)
    } else {
        match (mods_of(toks, n - 1), spec_mod_bit(toks[n - 1])) {
            (Some(acc), Some(m)) => Some(acc | m),
            _ => None,
        }
    }
}

/// The key combo `s` names: modifiers joined by `+`, then a key.
pub open spec fn spec_parse_keymap(s: Seq<char>) -> Option<Keymap> {
    let toks = split_plus(s);
    match (mods_of(toks, toks.len() - 1), spec_vk_from_name(toks.last())) {
        (Some(mods), Some(vk)) => Some(Keymap { mods, vk }),
        _ => None,
    }
}

/// Reads a key combo such as `ctrl+alt+1`: modifiers (`ctrl`/`control`, `alt`, `shift`,
/// `win`/`super`) joined by `+`, then a key as `vk_from_name` reads it.
pub fn parse_keymap(s: &str) -> (r: Result<Keymap, KeymapError>)
    ensures
        match r {
            Ok(k) => spec_parse_keymap(s@) == Some(k),
            Err(e) => spec_parse_keymap(s@) is None && e is Invalid,
        },
{
    let n = s.unicode_len();
    let mut mods: u32 = 0;
    let mut ok = true;
    let mut start: usize = 0;
    let mut i: usize = 0;
    let ghost mut done: Seq<Seq<char>> = Seq::empty();
    assert(s@.take(0) =~= Seq::<char>::empty());
    assert(s@.subrange(0, 0) =~= Seq::<char>::empty());
    assert(done.push(s@.subrange(0, 0)) =~= seq![Seq::<char>::empty()]);
    while i < n
        invariant
            n == s@.len(),
            start <= i <= n,
            split_plus(s@.take(i as int)) == done.push(s@.subrange(start as int, i as int)),
            ok ==> mods_of(done, done.len() as int) == Some(mods),
            !ok ==> mods_of(done, done.len() as int) is None,
        decreases n - i,
    {
        let c = s.get_char(i);
        assert(s@.take(i as int + 1).drop_last() =~= s@.take(i as int));
        assert(s@.take(i as int + 1).last() == c);
        if c == '+' {
            let tok = s.substring_char(start, i);
            let ghost before = done;
            proof {
                done = done.push(tok@);
                assert(done.drop_last() =~= before);
                assert(forall|k: int| 0 <= k < before.len() ==> done[k] == before[k]);
                lemma_mods_of_prefix(done, before, before.len() as int);
            }
            if ok {
                match mod_bit(tok) {
                    Some(m) => {
                        mods = mods | m;
                    },
                    None => {
                        ok = false;
                    },
                }
            }
            assert(s@.subrange(i as int + 1, i as int + 1) =~= Seq::<char>::empty());
            assert(split_plus(s@.take(i as int + 1)) =~= done.push(s@.subrange(i as int + 1, i as int + 1)));
            start = i + 1;
        } else {
            assert(s@.subrange(start as int, i as int + 1) =~= s@.subrange(start as int, i as int).push(c));
            assert(split_plus(s@.take(i as int + 1)) =~= done.push(s@.subrange(start as int, i as int + 1)));
        }
        i = i + 1;
    }
    assert(s@.take(n as int) =~= s@);
    let last = s.substring_char(start, n);
    let ghost toks = split_plus(s@);
    assert(toks.last() == last@);
    assert(toks.drop_last() =~= done);
    proof { lemma_mods_of_prefix(toks, done, done.len() as int); }
    if !ok {
        return Err(KeymapError::Invalid);
    }
    match vk_from_name(last) {
        Some(vk) => Ok(Keymap { mods, vk }),
        None => Err(KeymapError::Invalid),
    }
}

proof fn lemma_mods_of_prefix(a: Seq<Seq<char>>, b: Seq<Seq<char>>, n: int)
    requires
        n <= a.len(),
        n <= b.len(),
        forall|k: int| 0 <= k < n ==> a[k] == b[k],
    ensures
        mods_of(a, n) == mods_of(b, n),
    decreases n,
{
    if n > 0 {
        lemma_mods_of_prefix(a, b, n - 1);
    }
}

/// Where reading the key bindings stands: the registry built so far, as its id map and
/// action list, or the words of the first error, or the name of the first action with
/// index 0.
pub enum KeymapsOutcome {
    Built(Map<u64, i32>, Seq<Action>),
    Failed(Seq<char>),
    ZeroIndex(Seq<char>),
}

/// The key bindings `entries` as pairs of combo and action name.
pub open spec fn entry_views(entries: Seq<KeymapEntry>) -> Seq<(Seq<char>, Seq<char>)> {
    entries.map_values(|e: KeymapEntry| (e.combo@, e.action@))
}

/// Registering the binding of `combo` to the action named `name` in the registry held by
/// `ids` and `actions`.
pub open spec fn keymap_step(ids: Map<u64, i32>, actions: Seq<Action>, combo: Seq<char>, name: Seq<char>) -> KeymapsOutcome {
    if Action::spec_has_zero_index(name) {
        KeymapsOutcome::ZeroIndex(name)
    } else {
        match Action::spec_from_name(name) {
            None => KeymapsOutcome::Failed("unknown action '"@ + name + "'"@),
            Some(a) => match spec_parse_keymap(combo) {
                None => KeymapsOutcome::Failed("Invalid key combo"@ + " for action '"@ + a.name() + "'"@),
                Some(k) => if ids.contains_key(key_code(k)) {
                    KeymapsOutcome::Failed(duplicate_message(bound_name_in(ids, actions, k), a.name()))
                } else {
                    KeymapsOutcome::Built(ids.insert(key_code(k), actions.len() as i32), actions.push(a))
                },
            },
        }
    }
}

/// Where reading the first `n` bindings of `es` leaves the registry, starting empty and
/// stopping at the first problem.
pub open spec fn keymaps_after(es: Seq<(Seq<char>, Seq<char>)>, n: int) -> KeymapsOutcome
    decreases n,
{
    if n <= 0 {
        KeymapsOutcome::Built(Map::empty(), Seq::empty())
    } else {
        match keymaps_after(es, n - 1) {
            KeymapsOutcome::Built(ids, actions) => keymap_step(ids, actions, es[n - 1].0, es[n - 1].1),
            other => other,
        }
    }
}

proof fn lemma_keymaps_stop(es: Seq<(Seq<char>, Seq<char>)>, n: int, m: int)
    requires
        0 <= n <= m,
        !(keymaps_after(es, n) is Built),
    ensures
        keymaps_after(es, m) == keymaps_after(es, n),
    decreases m - n,
{
    if m > n {
        lemma_keymaps_stop(es, n, m - 1);
    }
}

/// Builds the key registry from the bindings of the configuration, in order. The first
/// binding that names no action, has no valid combo or repeats a combo ends the reading
/// with an error that says so; one that names a layout or workspace action with index 0
/// ends it with `IndexFromZero`.
pub fn to_keymaps(entries: &Vec<KeymapEntry>) -> (r: Result<KeymapRegistry, ConfigError>)
    requires
        entries@.len() < i32::MAX,
    ensures
        match keymaps_after(entry_views(entries@), entries@.len() as int) {
            KeymapsOutcome::Built(ids, actions) => r matches Ok(reg) && reg.wf() && reg.keymap_to_id@ == ids
                && reg.id_to_action@ == actions,
            KeymapsOutcome::Failed(msg) => r matches Err(ConfigError::Invalid(t)) && t@ == msg,
            KeymapsOutcome::ZeroIndex(name) => r matches Err(ConfigError::IndexFromZero(t)) && t@ == name,
        },
{
    let ghost es = entry_views(entries@);
    let mut reg = KeymapRegistry::new();
    let mut i: usize = 0;
    while i < entries.len()
        invariant
            i <= entries@.len() < i32::MAX,
            es == entry_views(entries@),
            reg.wf(),
            reg.id_to_action@.len() <= i,
            keymaps_after(es, i as int) == KeymapsOutcome::Built(reg.keymap_to_id@, reg.id_to_action@),
        decreases entries@.len() - i,
    {
        let e = &entries[i];
        assert(es[i as int] == (e.combo@, e.action@));
        if Action::has_zero_index(e.action.as_str()) {
            proof { lemma_keymaps_stop(es, i as int + 1, entries@.len() as int); }
            return Err(ConfigError::IndexFromZero(e.action.clone()));
        }
        let action = match Action::from_string(e.action.as_str()) {
            Some(a) => a,
            None => {
                let mut msg = String::from_str("unknown action '");
                msg.append(e.action.as_str());
                msg.append("'");
                proof { lemma_keymaps_stop(es, i as int + 1, entries@.len() as int); }
                return Err(ConfigError::Invalid(msg));
            },
        };
        let keymap = match parse_keymap(e.combo.as_str()) {
            Ok(k) => k,
            Err(err) => {
                let mut msg = err.message();
                msg.append(" for action '");
                let name = action.to_string();
                msg.append(name.as_str());
                msg.append("'");
                proof { lemma_keymaps_stop(es, i as int + 1, entries@.len() as int); }
                return Err(ConfigError::Invalid(msg));
            },
        };
        match reg.add_keymap(keymap, action) {
            Ok(()) => {},
            Err(err) => {
                proof { lemma_keymaps_stop(es, i as int + 1, entries@.len() as int); }
                return Err(ConfigError::Invalid(err.message()));
            },
        }
        i = i + 1;
    }
    Ok(reg)
}

} // verus!
