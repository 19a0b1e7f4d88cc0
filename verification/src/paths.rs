//! Alias naming: the keystore alias of a user alias, and which aliases are valid.
use vstd::prelude::*;
use crate::error::JcmError;
use crate::text::{chars_of, is_ascii_alnum, is_ascii_alnum_exec, push_str, starts_with, starts_with_chars};

verus! {

/// The keystore alias for `alias`: `alias` itself when it already carries `prefix`.
pub open spec fn keystore_alias(alias: Seq<char>, prefix: Seq<char>) -> Seq<char> {
    if starts_with(alias, prefix) {
        alias
    } else {
        prefix + alias
    }
}

pub fn resolve_keystore_alias(alias: &str, prefix: &str) -> (r: String)
    ensures
        r@ == keystore_alias(alias@, prefix@),
{
    if starts_with_chars(&chars_of(alias), &chars_of(prefix)) {
        alias.to_owned()
    } else {
        let mut r = prefix.to_owned();
        push_str(&mut r, alias);
        r
    }
}

/// A character allowed in an alias.
pub open spec fn alias_char(c: char) -> bool {
    is_ascii_alnum(c) || c == '-' || c == '_'
}

/// A non-empty alias of ASCII letters, digits, `-` and `_`.
pub open spec fn valid_alias(alias: Seq<char>) -> bool {
    alias.len() > 0 && forall|i: int| 0 <= i < alias.len() ==> alias_char(#[trigger] alias[i])
}

pub fn validate_alias(alias: &str) -> (r: Result<(), JcmError>)
    ensures
        r is Ok <==> valid_alias(alias@),
        r matches Err(e) ==> (e matches JcmError::InvalidAlias { alias: a } && a@ == alias@),
{
    let cs = chars_of(alias);
    let mut ok = cs.len() > 0;
    let mut i: usize = 0;
    while i < cs.len()
        invariant
            cs@ == alias@,
            i <= cs.len(),
            ok == (cs.len() > 0 && forall|k: int| 0 <= k < i ==> alias_char(#[trigger] cs@[k])),
        decreases cs.len() - i,
    {
        let c = cs[i];
        if !(is_ascii_alnum_exec(c) || c == '-' || c == '_') {
            ok = false;
        }
        i = i + 1;
    }
    if ok {
        Ok(())
    } else {
        Err(JcmError::InvalidAlias { alias: alias.to_owned() })
    }
}

/// Resolving a keystore alias a second time changes nothing, and the result
/// always carries the prefix.
pub proof fn law_keystore_alias_idempotent(alias: Seq<char>, prefix: Seq<char>)
    ensures
        starts_with(keystore_alias(alias, prefix), prefix),
        keystore_alias(keystore_alias(alias, prefix), prefix) == keystore_alias(alias, prefix),
{
    if !starts_with(alias, prefix) {
        assert((prefix + alias).subrange(0, prefix.len() as int) =~= prefix);
    }
}

} // verus!
