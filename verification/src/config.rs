//! The settings file of the client: lines of the form `key = value`.

use crate::text::{chars_of, lines, split_lines, str_eq, string_of, texts, trim, trimmed};
use crate::theme::{is_silent, read_setting, setting};
use crate::types::views;
use vstd::prelude::*;

verus! {

/// One setting: a key and the value given to it.
#[derive(Debug, Clone)]
pub struct Setting {
    pub key: String,
    pub value: String,
}

/// The mathematical value of a setting.
pub ghost struct SettingView {
    pub key: Seq<char>,
    pub value: Seq<char>,
}

impl View for Setting {
    type V = SettingView;

    open spec fn view(&self) -> SettingView {
        SettingView { key: self.key@, value: self.value@ }
    }
}

/// The setting that a line makes: what stands before and after its first
/// `=`, both trimmed. A blank line, a comment and a line without `=` make
/// none.
pub open spec fn setting_on(line: Seq<char>) -> Option<SettingView> {
    if is_silent(line) {
        None
    } else {
        match setting(trim(line)) {
            Some((k, v)) => Some(SettingView { key: trim(k), value: trim(v) }),
            None => None,
        }
    }
}

/// The settings that the lines of a file make, in order.
pub open spec fn settings_of(all: Seq<Seq<char>>) -> Seq<SettingView>
    decreases all.len(),
{
    if all.len() == 0 {
        Seq::empty()
    } else {
        match setting_on(all.last()) {
            Some(s) => settings_of(all.drop_last()).push(s),
            None => settings_of(all.drop_last()),
        }
    }
}

/// The value that a list of settings gives to a key: that of the last
/// setting with the key.
pub open spec fn value_of(settings: Seq<SettingView>, key: Seq<char>) -> Option<Seq<char>>
    decreases settings.len(),
{
    if settings.len() == 0 {
        None
    } else if settings.last().key == key {
        Some(settings.last().value)
    } else {
        value_of(settings.drop_last(), key)
    }
}

/// Reads the settings of a file.
pub fn parse_config(content: &str) -> (r: Vec<Setting>)
    ensures
        views(r@) == settings_of(lines(content@)),
{
    let chars = chars_of(content);
    let all = split_lines(chars.as_slice());
    let mut out: Vec<Setting> = Vec::new();
    let mut i: usize = 0;
    proof {
        assert(texts(all@).take(0) =~= Seq::<Seq<char>>::empty());
        assert(views(out@) =~= Seq::<SettingView>::empty());
    }
    while i < all.len()
        invariant
            i <= all@.len(),
            views(out@) == settings_of(texts(all@).take(i as int)),
        decreases all@.len() - i,
    {
        let ghost next = texts(all@).take(i + 1);
        proof {
            assert(next.drop_last() =~= texts(all@).take(i as int));
            assert(next.last() == all@[i as int]@);
        }
        let t = trimmed(all[i].as_slice());
        if !(t.len() == 0 || t[0] == '#') {
            match read_setting(t) {
                Some((k, v)) => {
                    let ghost before = out@;
                    let s = Setting { key: string_of(trimmed(k)), value: string_of(trimmed(v)) };
                    out.push(s);
                    proof {
                        crate::types::lemma_views_push(before, s);
                    }
                },
                None => {},
            }
        }
        i += 1;
    }
    proof {
        assert(texts(all@).take(all@.len() as int) =~= texts(all@));
    }
    out
}

/// Looks up the value of a key.
pub fn config_value<'a>(settings: &'a Vec<Setting>, key: &str) -> (r: Option<&'a str>)
    ensures
        match r {
            Some(v) => value_of(views(settings@), key@) == Some(v@),
            None => value_of(views(settings@), key@) is None,
        },
{
    let mut n: usize = settings.len();
    proof {
        assert(views(settings@).take(settings@.len() as int) =~= views(settings@));
    }
    while n > 0
        invariant
            n <= settings@.len(),
            value_of(views(settings@), key@) == value_of(views(settings@).take(n as int), key@),
        decreases n,
    {
        let ghost prefix = views(settings@).take(n as int);
        proof {
            assert(prefix.drop_last() =~= views(settings@).take(n - 1));
            assert(prefix.last() == settings@[n - 1]@);
        }
        n -= 1;
        if str_eq(settings[n].key.as_str(), key) {
            return Some(settings[n].value.as_str());
        }
    }
    None
}

} // verus!
