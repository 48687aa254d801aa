//! What the bot writes back to commands and menu selections.

use vstd::prelude::*;
use crate::text::{decimal_chars, decimal_spec, string_of};

verus! {

/// The reply to adding `key` read as `value` to the dictionary: that it was
/// registered, or that the word was already there.
pub fn dict_add_reply(added: bool, key: &str, value: &str) -> (res: String)
    ensures
        added ==> res@ == "`"@ + key@ + "`の読み方を`"@ + value@ + "`として辞書に登録しました。"@,
        !added ==> res@ == "すでに`"@ + key@ + "`は辞書に登録されています。"@,
{
    if added {
        let mut s = String::from_str("`");
        s.append(key);
        s.append("`の読み方を`");
        s.append(value);
        s.append("`として辞書に登録しました。");
        s
    } else {
        let mut s = String::from_str("すでに`");
        s.append(key);
        s.append("`は辞書に登録されています。");
        s
    }
}

/// The reply to removing `key` from the dictionary: that it was removed, or
/// that it was not there.
pub fn dict_remove_reply(removed: bool, key: &str) -> (res: String)
    ensures
        removed ==> res@ == "辞書から`"@ + key@ + "`を削除しました。"@,
        !removed ==> res@ == "`"@ + key@ + "`は辞書に登録されていません。"@,
{
    if removed {
        let mut s = String::from_str("辞書から`");
        s.append(key);
        s.append("`を削除しました。");
        s
    } else {
        let mut s = String::from_str("`");
        s.append(key);
        s.append("`は辞書に登録されていません。");
        s
    }
}

/// The reply to choosing a voice: a mention of the user and the voice's name.
pub fn voice_changed_message(user_id: u64, name: &str) -> (res: String)
    ensures
        res@ == "<@"@ + decimal_spec(user_id as nat) + ">さんの声を`"@ + name@ + "`に変更しました。"@,
{
    let digits = decimal_chars(user_id);
    let id = string_of(&digits);
    let mut s = String::from_str("<@");
    s.append(id.as_str());
    s.append(">さんの声を`");
    s.append(name);
    s.append("`に変更しました。");
    s
}

} // verus!
