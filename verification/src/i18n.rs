//! Languages and the translation store used for user-facing messages.

use vstd::prelude::*;

use crate::strutil::{prefix_until, spec_prefix_until, str_eq};

verus! {

/// Supported languages.
#[derive(Clone, Copy, Debug, PartialEq, Eq, Structural)]
pub enum Language {
    English,
    Chinese,
    Japanese,
    Korean,
    Spanish,
    French,
    German,
    Russian,
}

/// ASCII lowercase of one character.
pub open spec fn lower_char(c: char) -> char {
    if 'A' <= c && c <= 'Z' {
        (((c as u8) + 32) as char)
    } else {
        c
    }
}

/// ASCII lowercase of a character sequence.
pub open spec fn lower_seq(s: Seq<char>) -> Seq<char> {
    s.map_values(|c: char| lower_char(c))
}

/// ASCII lowercase of one character, executable form.
pub fn lower_char_exec(c: char) -> (r: char)
    ensures
        r == lower_char(c),
{
    if 'A' <= c && c <= 'Z' {
        ((c as u8) + 32) as char
    } else {
        c
    }
}

/// ASCII-case-insensitive equality of two string slices.
pub fn eq_ignore_ascii_case(s: &str, t: &str) -> (r: bool)
    ensures
        r == (lower_seq(s@) == lower_seq(t@)),
{
    let slen = s.unicode_len();
    let tlen = t.unicode_len();
    if slen != tlen {
        assert(lower_seq(s@).len() != lower_seq(t@).len());
        return false;
    }
    let mut i: usize = 0;
    while i < slen
        invariant
            slen == s@.len(),
            tlen == t@.len(),
            slen == tlen,
            i <= slen,
            forall|j: int| 0 <= j < i ==> lower_char(s@[j]) == lower_char(t@[j]),
        decreases slen - i,
    {
        if lower_char_exec(s.get_char(i)) != lower_char_exec(t.get_char(i)) {
            assert(lower_seq(s@)[i as int] != lower_seq(t@)[i as int]);
            return false;
        }
        i += 1;
    }
    proof {
        assert(lower_seq(s@) =~= lower_seq(t@));
    }
    true
}

impl Default for Language {
    fn default() -> (r: Self)
        ensures
            r == Language::English,
    {
        Language::English
    }
}

/// What `Language::from_str` accepts, over the lowercased input.
pub open spec fn spec_language_from(s: Seq<char>) -> Option<Language> {
    let l = lower_seq(s);
    if l == lower_seq("en"@) || l == lower_seq("english"@) {
        Some(Language::English)
    } else if l == lower_seq("zh"@) || l == lower_seq("chinese"@) || l == lower_seq("cn"@) {
        Some(Language::Chinese)
    } else if l == lower_seq("ja"@) || l == lower_seq("japanese"@) {
        Some(Language::Japanese)
    } else if l == lower_seq("ko"@) || l == lower_seq("korean"@) {
        Some(Language::Korean)
    } else if l == lower_seq("es"@) || l == lower_seq("spanish"@) {
        Some(Language::Spanish)
    } else if l == lower_seq("fr"@) || l == lower_seq("french"@) {
        Some(Language::French)
    } else if l == lower_seq("de"@) || l == lower_seq("german"@) {
        Some(Language::German)
    } else if l == lower_seq("ru"@) || l == lower_seq("russian"@) {
        Some(Language::Russian)
    } else {
        None
    }
}

impl Language {
    /// Parse a language tag or English name, ASCII-case-insensitively.
    pub fn from_str(s: &str) -> (r: Option<Language>)
        ensures
            r == spec_language_from(s@),
    {
        if eq_ignore_ascii_case(s, "en") || eq_ignore_ascii_case(s, "english") {
            Some(Language::English)
        } else if eq_ignore_ascii_case(s, "zh") || eq_ignore_ascii_case(s, "chinese")
            || eq_ignore_ascii_case(s, "cn") {
            Some(Language::Chinese)
        } else if eq_ignore_ascii_case(s, "ja") || eq_ignore_ascii_case(s, "japanese") {
            Some(Language::Japanese)
        } else if eq_ignore_ascii_case(s, "ko") || eq_ignore_ascii_case(s, "korean") {
            Some(Language::Korean)
        } else if eq_ignore_ascii_case(s, "es") || eq_ignore_ascii_case(s, "spanish") {
            Some(Language::Spanish)
        } else if eq_ignore_ascii_case(s, "fr") || eq_ignore_ascii_case(s, "french") {
            Some(Language::French)
        } else if eq_ignore_ascii_case(s, "de") || eq_ignore_ascii_case(s, "german") {
            Some(Language::German)
        } else if eq_ignore_ascii_case(s, "ru") || eq_ignore_ascii_case(s, "russian") {
            Some(Language::Russian)
        } else {
            None
        }
    }

    /// The language's name in English.
    pub fn name(&self) -> (r: &'static str)
        ensures
            r@ == spec_language_name(*self),
    {
        match self {
            Language::English => "English",
            Language::Chinese => "Chinese",
            Language::Japanese => "Japanese",
            Language::Korean => "Korean",
            Language::Spanish => "Spanish",
            Language::French => "French",
            Language::German => "German",
            Language::Russian => "Russian",
        }
    }

    /// The language's name in itself.
    pub fn native_name(&self) -> (r: &'static str)
        ensures
            r@ == spec_language_native_name(*self),
    {
        match self {
            Language::English => "English",
            Language::Chinese => "中文",
            Language::Japanese => "日本語",
            Language::Korean => "한국어",
            Language::Spanish => "Español",
            Language::French => "Français",
            Language::German => "Deutsch",
            Language::Russian => "Русский",
        }
    }
}

/// The English name of each language.
pub open spec fn spec_language_name(l: Language) -> Seq<char> {
    match l {
        Language::English => "English"@,
        Language::Chinese => "Chinese"@,
        Language::Japanese => "Japanese"@,
        Language::Korean => "Korean"@,
        Language::Spanish => "Spanish"@,
        Language::French => "French"@,
        Language::German => "German"@,
        Language::Russian => "Russian"@,
    }
}

/// The native name of each language.
pub open spec fn spec_language_native_name(l: Language) -> Seq<char> {
    match l {
        Language::English => "English"@,
        Language::Chinese => "中文"@,
        Language::Japanese => "日本語"@,
        Language::Korean => "한국어"@,
        Language::Spanish => "Español"@,
        Language::French => "Français"@,
        Language::German => "Deutsch"@,
        Language::Russian => "Русский"@,
    }
}

/// The list of all supported languages, in presentation order.
pub fn get_supported_languages() -> (r: Vec<Language>)
    ensures
        r@ == seq![
            Language::English,
            Language::Chinese,
            Language::Japanese,
            Language::Korean,
            Language::Spanish,
            Language::French,
            Language::German,
            Language::Russian,
        ],
{
    let mut v: Vec<Language> = Vec::new();
    v.push(Language::English);
    v.push(Language::Chinese);
    v.push(Language::Japanese);
    v.push(Language::Korean);
    v.push(Language::Spanish);
    v.push(Language::French);
    v.push(Language::German);
    v.push(Language::Russian);
    proof {
        assert(v@ =~= seq![
            Language::English,
            Language::Chinese,
            Language::Japanese,
            Language::Korean,
            Language::Spanish,
            Language::French,
            Language::German,
            Language::Russian,
        ]);
    }
    v
}

/// The language assumed for the system when nothing else decides.
pub fn get_system_language() -> (r: Language)
    ensures
        r == Language::English,
{
    Language::default()
}

/// Decide the language from environment values: an explicit tool
/// override wins, then the system locale's language part, then English.
pub fn detect_language(tool_language: Option<&String>, locale_language: Option<&String>) -> (r:
    Language)
    ensures
        r == spec_detect_language(
            match tool_language {
                Some(s) => Some(s@),
                None => None,
            },
            match locale_language {
                Some(s) => Some(s@),
                None => None,
            },
        ),
{
    if let Some(lang) = tool_language {
        if let Some(detected) = Language::from_str(lang.as_str()) {
            return detected;
        }
    }
    if let Some(lang) = locale_language {
        let part = prefix_until(lang.as_str(), '_');
        if let Some(detected) = Language::from_str(part.as_str()) {
            return detected;
        }
    }
    Language::English
}

/// The views of a list of strings.
pub open spec fn strs_of(s: Seq<String>) -> Seq<Seq<char>> {
    s.map_values(|x: String| x@)
}

/// Is this character a decimal digit?
pub open spec fn is_digit(c: char) -> bool {
    '0' <= c && c <= '9'
}

/// The value of a decimal digit.
pub open spec fn digit_val(c: char) -> int {
    c as int - 48
}

/// A template with each single-digit placeholder `{i}` replaced by the
/// corresponding argument; markers without an argument stay as written.
pub open spec fn spec_format(template: Seq<char>, args: Seq<Seq<char>>) -> Seq<char>
    decreases template.len(),
{
    if template.len() == 0 {
        Seq::empty()
    } else if template.len() >= 3 && template[0] == '{' && is_digit(template[1]) && template[2]
        == '}' && digit_val(template[1]) < args.len() {
        args[digit_val(template[1])] + spec_format(template.skip(3), args)
    } else {
        seq![template[0]] + spec_format(template.skip(1), args)
    }
}

/// Replace the placeholders `{0}`, `{1}`, ... in a template by the
/// given arguments.
pub fn format_args(template: &str, args: &Vec<String>) -> (r: String)
    ensures
        r@ == spec_format(template@, strs_of(args@)),
{
    let ghost argsv = strs_of(args@);
    let len = template.unicode_len();
    let mut r = String::new();
    let mut i: usize = 0;
    proof {
        assert(template@.skip(0) =~= template@);
        assert(r@ + spec_format(template@, argsv) =~= spec_format(template@, argsv));
    }
    while i < len
        invariant
            len == template@.len(),
            argsv == strs_of(args@),
            i <= len,
            spec_format(template@, argsv) == r@ + spec_format(template@.skip(i as int), argsv),
        decreases len - i,
    {
        let ghost io = i as int;
        let c = template.get_char(i);
        let mut substituted = false;
        if c == '{' && len - i >= 3 {
            let d = template.get_char(i + 1);
            let close = template.get_char(i + 2);
            if '0' <= d && d <= '9' && close == '}' {
                let idx = (d as u8 - 48) as usize;
                if idx < args.len() {
                    proof {
                        assert(template@.skip(io)[0] == template@[io]);
                        assert(template@.skip(io)[1] == template@[io + 1]);
                        assert(template@.skip(io)[2] == template@[io + 2]);
                        assert(digit_val(template@[io + 1]) == idx);
                        assert(template@.skip(io).skip(3) =~= template@.skip(io + 3));
                    }
                    r.append(args[idx].as_str());
                    i += 3;
                    substituted = true;
                }
            }
        }
        if !substituted {
            proof {
                assert(template@.skip(io)[0] == template@[io]);
                assert(template@.skip(io).skip(1) =~= template@.skip(io + 1));
                assert(!(template@.skip(io).len() >= 3 && template@.skip(io)[0] == '{'
                    && is_digit(template@.skip(io)[1]) && template@.skip(io)[2] == '}'
                    && digit_val(template@.skip(io)[1]) < argsv.len()));
            }
            let piece = template.substring_char(i, i + 1);
            proof {
                assert(piece@ =~= seq![template@[io]]);
            }
            r.append(piece);
            i += 1;
        }
    }
    proof {
        assert(template@.skip(len as int) =~= Seq::<char>::empty());
        assert(r@ + Seq::<char>::empty() =~= r@);
    }
    r
}

/// Translate a key and substitute the arguments into its placeholders.
pub fn t_format(store: &TranslationStore, key: &str, language: &Language, args: &Vec<String>)
    -> (r: String)
    requires
        store.wf(),
    ensures
        r@ == spec_format(spec_translation_or_fallback(store@, key@, *language), strs_of(
            args@)),
{
    let template = t(store, key, language);
    format_args(template.as_str(), args)
}

/// What `detect_language` decides when the tool override is absent or
/// unrecognised.
pub open spec fn spec_detect_from_locale(locale_language: Option<Seq<char>>) -> Language {
    match locale_language {
        Some(ls) => match spec_language_from(spec_prefix_until(ls, '_')) {
            Some(lang) => lang,
            None => Language::English,
        },
        None => Language::English,
    }
}

/// One translated message of one entry.
#[derive(Clone, Debug)]
pub struct LanguageMessage {
    pub language: Language,
    pub message: String,
}

/// Mathematical view of a `LanguageMessage`.
pub ghost struct LanguageMessageV {
    pub language: Language,
    pub message: Seq<char>,
}

impl View for LanguageMessage {
    type V = LanguageMessageV;

    open spec fn view(&self) -> LanguageMessageV {
        LanguageMessageV { language: self.language, message: self.message@ }
    }
}

/// All translations of one message key.
#[derive(Clone, Debug)]
pub struct TranslationEntry {
    pub key: String,
    pub translations: Vec<LanguageMessage>,
}

/// Mathematical view of a `TranslationEntry`.
pub ghost struct TranslationEntryV {
    pub key: Seq<char>,
    pub translations: Seq<LanguageMessageV>,
}

impl View for TranslationEntry {
    type V = TranslationEntryV;

    open spec fn view(&self) -> TranslationEntryV {
        TranslationEntryV {
            key: self.key@,
            translations: self.translations@.map_values(|m: LanguageMessage| m@),
        }
    }
}

/// Does the entry carry a message in this language?
pub open spec fn entry_has_lang(e: TranslationEntryV, lang: Language) -> bool {
    exists|i: int| 0 <= i < e.translations.len() && e.translations[i].language == lang
}

/// The entry's message in this language (meaningful when present).
pub open spec fn entry_message(e: TranslationEntryV, lang: Language) -> Seq<char> {
    e.translations[choose|i: int|
        0 <= i < e.translations.len() && e.translations[i].language == lang].message
}

/// Does the store carry an entry for this key?
pub open spec fn store_has_key(s: Seq<TranslationEntryV>, key: Seq<char>) -> bool {
    exists|i: int| 0 <= i < s.len() && s[i].key == key
}

/// The store's entry for this key (meaningful when present).
pub open spec fn store_entry(s: Seq<TranslationEntryV>, key: Seq<char>) -> TranslationEntryV {
    s[choose|i: int| 0 <= i < s.len() && s[i].key == key]
}

/// The message stored for a key in a language, if any.
pub open spec fn spec_translation(s: Seq<TranslationEntryV>, key: Seq<char>, lang: Language)
    -> Option<Seq<char>> {
    if store_has_key(s, key) && entry_has_lang(store_entry(s, key), lang) {
        Some(entry_message(store_entry(s, key), lang))
    } else {
        None
    }
}

/// What `get_translation_or_fallback` returns: the requested language,
/// else English, else the key itself.
pub open spec fn spec_translation_or_fallback(
    s: Seq<TranslationEntryV>,
    key: Seq<char>,
    lang: Language,
) -> Seq<char> {
    match spec_translation(s, key, lang) {
        Some(m) => m,
        None => match spec_translation(s, key, Language::English) {
            Some(m) => m,
            None => key,
        },
    }
}

/// The store of translated messages, keyed by message key and language.
#[derive(Clone, Debug)]
pub struct TranslationStore {
    pub messages: Vec<TranslationEntry>,
}

/// The views of a store's entries.
pub open spec fn entries_of(s: Seq<TranslationEntry>) -> Seq<TranslationEntryV> {
    s.map_values(|e: TranslationEntry| e@)
}

impl View for TranslationStore {
    type V = Seq<TranslationEntryV>;

    open spec fn view(&self) -> Seq<TranslationEntryV> {
        entries_of(self.messages@)
    }
}

proof fn lemma_entry_at(s: Seq<TranslationEntryV>, key: Seq<char>, i: int)
    requires
        forall|a: int, b: int| 0 <= a < b < s.len() ==> s[a].key != s[b].key,
        0 <= i < s.len(),
        s[i].key == key,
    ensures
        store_has_key(s, key),
        store_entry(s, key) == s[i],
{
    assert(store_has_key(s, key));
    let k = choose|k: int| 0 <= k < s.len() && s[k].key == key;
    if k != i {
        if k < i {
            assert(s[k].key != s[i].key);
        } else {
            assert(s[i].key != s[k].key);
        }
    }
}

proof fn lemma_message_at(e: TranslationEntryV, lang: Language, j: int)
    requires
        forall|a: int, b: int| 0 <= a < b < e.translations.len() ==> e.translations[a].language
            != e.translations[b].language,
        0 <= j < e.translations.len(),
        e.translations[j].language == lang,
    ensures
        entry_has_lang(e, lang),
        entry_message(e, lang) == e.translations[j].message,
{
    assert(entry_has_lang(e, lang));
    let k = choose|k: int| 0 <= k < e.translations.len() && e.translations[k].language == lang;
    if k != j {
        if k < j {
            assert(e.translations[k].language != e.translations[j].language);
        } else {
            assert(e.translations[j].language != e.translations[k].language);
        }
    }
}

impl TranslationStore {
    /// Keys are unique, and languages are unique within each entry.
    pub open spec fn wf(&self) -> bool {
        &&& forall|a: int, b: int| 0 <= a < b < self@.len() ==> self@[a].key != self@[b].key
        &&& forall|i: int, a: int, b: int| 0 <= i < self@.len() && 0 <= a < b
            < self@[i].translations.len() ==> (#[trigger] self@[i].translations[a]).language
            != (#[trigger] self@[i].translations[b]).language
    }

    /// An empty store.
    pub fn empty() -> (r: Self)
        ensures
            r.wf(),
            r@.len() == 0,
    {
        let r = TranslationStore { messages: Vec::new() };
        proof {
            assert(r@ =~= Seq::<TranslationEntryV>::empty());
        }
        r
    }

    /// A store preloaded with the built-in messages.
    pub fn new() -> (r: Self)
        ensures
            r.wf(),
    {
        let mut store = TranslationStore::empty();
        store.load_default_translations();
        store
    }

    /// Record one translation, replacing what the key held for that
    /// language and touching nothing else.
    pub fn add_translation(&mut self, key: &str, language: Language, message: &str)
        requires
            old(self).wf(),
        ensures
            final(self).wf(),
            spec_translation(final(self)@, key@, language) == Some(message@),
            forall|k: Seq<char>, l: Language| k != key@ || l != language ==> spec_translation(
                final(self)@, k, l) == spec_translation(old(self)@, k, l),
    {
        let ghost olds = self@;
        let n = self.messages.len();
        let mut i: usize = 0;
        while i < n
            invariant
                olds == self@,
                olds == old(self)@,
                forall|a: int, b: int| 0 <= a < b < olds.len() ==> olds[a].key != olds[b].key,
                forall|e: int, x: int, y: int| 0 <= e < olds.len() && 0 <= x < y
                    < olds[e].translations.len() ==> (#[trigger] olds[e].translations[x]).language
                    != (#[trigger] olds[e].translations[y]).language,
                n == self.messages@.len(),
                i <= n,
                forall|a: int| 0 <= a < i ==> self@[a].key != key@,
            decreases n - i,
        {
            if str_eq(self.messages[i].key.as_str(), key) {
                let ghost removed = self.messages@;
                let mut entry = self.messages.remove(i);
                let ghost olde = entry@;
                proof {
                    assert(olde == olds[i as int]);
                    assert forall|x: int, y: int| 0 <= x < y < olde.translations.len() implies
                        (#[trigger] olde.translations[x]).language
                        != (#[trigger] olde.translations[y]).language by {
                        assert(olds[i as int].translations[x] == olde.translations[x]);
                        assert(olds[i as int].translations[y] == olde.translations[y]);
                    }
                }
                let m = entry.translations.len();
                let mut j: usize = 0;
                let mut lang_at: Option<usize> = None;
                while j < m
                    invariant
                        olde == entry@,
                        m == entry.translations@.len(),
                        j <= m,
                        match lang_at {
                            Some(a) => a < m && entry@.translations[a as int].language
                                == language,
                            None => forall|a: int| 0 <= a < j
                                ==> entry@.translations[a].language != language,
                        },
                    decreases m - j,
                {
                    if lang_at.is_none() && entry.translations[j].language == language {
                        lang_at = Some(j);
                    }
                    j += 1;
                }
                match lang_at {
                    Some(a) => {
                        let ghost oldt = entry.translations@;
                        let mut msg = entry.translations.remove(a);
                        msg.message = String::from_str(message);
                        entry.translations.insert(a, msg);
                        proof {
                            assert(entry.translations@ =~= oldt.update(a as int, msg));
                            assert(forall|b: int| 0 <= b < olde.translations.len() && b != a
                                ==> entry@.translations[b] == olde.translations[b]);
                            assert(entry@.translations[a as int] == (LanguageMessageV {
                                language,
                                message: message@,
                            }));
                            lemma_entry_update(olde, entry@, a as int, language, message@);
                        }
                    },
                    None => {
                        entry.translations.push(
                            LanguageMessage { language, message: String::from_str(message) },
                        );
                        proof {
                            assert(entry@.translations =~= olde.translations.push(
                                LanguageMessageV { language, message: message@ }));
                            lemma_entry_append(olde, entry@, language, message@);
                        }
                    },
                }
                self.messages.insert(i, entry);
                proof {
                    let news = self@;
                    let ii = i as int;
                    assert(news.len() == olds.len());
                    assert forall|a: int| 0 <= a < news.len() && a != ii implies news[a]
                        == olds[a] by {
                        if a < ii {
                            assert(self.messages@[a] == removed[a]);
                        } else {
                            assert(self.messages@[a] == removed[a]);
                        }
                    }
                    assert(news[ii] == entry@);
                    assert(news[ii].key == key@);
                    assert(olds[ii].key == key@);
                    lemma_update_facts(olds, news, ii, olde, language, message@);
                }
                return ;
            }
            i += 1;
        }
        let entry = TranslationEntry {
            key: String::from_str(key),
            translations: vec![
                LanguageMessage { language, message: String::from_str(message) },
            ],
        };
        self.messages.push(entry);
        proof {
            let news = self@;
            assert(news.len() == olds.len() + 1);
            assert(forall|a: int| 0 <= a < olds.len() ==> news[a] == olds[a]);
            assert(news[olds.len() as int].key == key@);
            assert(!store_has_key(olds, key@));
            assert(news[olds.len() as int].translations =~= seq![
                LanguageMessageV { language, message: message@ },
            ]);
            lemma_append_facts(olds, news, language, message@);
        }
    }

    /// The stored message for this key and language, if any.
    pub fn get_translation(&self, key: &str, language: &Language) -> (r: Option<&String>)
        requires
            self.wf(),
        ensures
            match r {
                Some(m) => spec_translation(self@, key@, *language) == Some(m@),
                None => spec_translation(self@, key@, *language) is None,
            },
    {
        let n = self.messages.len();
        let mut i: usize = 0;
        while i < n
            invariant
                self.wf(),
                n == self.messages@.len(),
                i <= n,
                forall|a: int| 0 <= a < i ==> self@[a].key != key@,
            decreases n - i,
        {
            if str_eq(self.messages[i].key.as_str(), key) {
                let entry = &self.messages[i];
                proof {
                    lemma_entry_at(self@, key@, i as int);
                    assert(entry@ == self@[i as int]);
                    assert forall|x: int, y: int| 0 <= x < y < entry@.translations.len()
                        implies (#[trigger] entry@.translations[x]).language
                        != (#[trigger] entry@.translations[y]).language by {
                        assert(self@[i as int].translations[x] == entry@.translations[x]);
                        assert(self@[i as int].translations[y] == entry@.translations[y]);
                    }
                }
                let m = entry.translations.len();
                let mut j: usize = 0;
                while j < m
                    invariant
                        store_has_key(self@, key@),
                        store_entry(self@, key@) == entry@,
                        forall|x: int, y: int| 0 <= x < y < entry@.translations.len()
                            ==> (#[trigger] entry@.translations[x]).language
                            != (#[trigger] entry@.translations[y]).language,
                        m == entry.translations@.len(),
                        j <= m,
                        forall|a: int| 0 <= a < j ==> entry@.translations[a].language
                            != *language,
                    decreases m - j,
                {
                    if entry.translations[j].language == *language {
                        proof {
                            lemma_message_at(entry@, *language, j as int);
                        }
                        return Some(&entry.translations[j].message);
                    }
                    j += 1;
                }
                proof {
                    assert(!entry_has_lang(entry@, *language));
                }
                return None;
            }
            i += 1;
        }
        proof {
            assert(!store_has_key(self@, key@));
        }
        None
    }

    /// The stored message for this key and language, falling back to
    /// English and then to the key itself.
    pub fn get_translation_or_fallback(&self, key: &str, language: &Language) -> (r: String)
        requires
            self.wf(),
        ensures
            r@ == spec_translation_or_fallback(self@, key@, *language),
    {
        match self.get_translation(key, language) {
            Some(m) => m.clone(),
            None => match self.get_translation(key, &Language::English) {
                Some(m) => m.clone(),
                None => String::from_str(key),
            },
        }
    }

    fn load_common_defaults(&mut self)
        requires
            old(self).wf(),
        ensures
            final(self).wf(),
    {
        self.add_translation("common.success", Language::English, "Success");
        self.add_translation("common.success", Language::Chinese, "成功");
        self.add_translation("common.success", Language::Japanese, "成功");
        self.add_translation("common.success", Language::Korean, "성공");
        self.add_translation("common.success", Language::Spanish, "Éxito");
        self.add_translation("common.success", Language::French, "Succès");
        self.add_translation("common.success", Language::German, "Erfolg");
        self.add_translation("common.success", Language::Russian, "Успех");
        self.add_translation("common.error", Language::English, "Error");
        self.add_translation("common.error", Language::Chinese, "错误");
        self.add_translation("common.error", Language::Japanese, "エラー");
        self.add_translation("common.error", Language::Korean, "오류");
        self.add_translation("common.error", Language::Spanish, "Error");
        self.add_translation("common.error", Language::French, "Erreur");
        self.add_translation("common.error", Language::German, "Fehler");
        self.add_translation("common.error", Language::Russian, "Ошибка");
    }

    fn load_sync_message_defaults(&mut self)
        requires
            old(self).wf(),
        ensures
            final(self).wf(),
    {
        self.add_translation("cli.sync_completed", Language::English, "Sync completed successfully");
        self.add_translation("cli.sync_completed", Language::Chinese, "同步成功完成");
        self.add_translation("cli.sync_completed", Language::Japanese, "同期が正常に完了しました");
        self.add_translation("cli.sync_completed", Language::Korean, "동기화가 성공적으로 완료되었습니다");
        self.add_translation("cli.sync_completed", Language::Spanish, "Sincronización completada con éxito");
        self.add_translation("cli.sync_completed", Language::French, "Synchronisation terminée avec succès");
        self.add_translation("cli.sync_completed", Language::German, "Synchronisierung erfolgreich abgeschlossen");
        self.add_translation("cli.sync_completed", Language::Russian, "Синхронизация успешно завершена");
        self.add_translation("cli.file_uploaded", Language::English, "File uploaded successfully");
        self.add_translation("cli.file_uploaded", Language::Chinese, "文件上传成功");
        self.add_translation("cli.file_uploaded", Language::Japanese, "ファイルが正常にアップロードされました");
        self.add_translation("cli.file_uploaded", Language::Korean, "파일이 성공적으로 업로드되었습니다");
        self.add_translation("cli.file_uploaded", Language::Spanish, "Archivo subido con éxito");
        self.add_translation("cli.file_uploaded", Language::French, "Fichier téléchargé avec succès");
        self.add_translation("cli.file_uploaded", Language::German, "Datei erfolgreich hochgeladen");
        self.add_translation("cli.file_uploaded", Language::Russian, "Файл успешно загружен");
        self.add_translation("cli.config_initialized", Language::English, "Configuration initialized");
        self.add_translation("cli.config_initialized", Language::Chinese, "配置已初始化");
        self.add_translation("cli.config_initialized", Language::Japanese, "設定が初期化されました");
        self.add_translation("cli.config_initialized", Language::Korean, "구성이 초기화되었습니다");
        self.add_translation("cli.config_initialized", Language::Spanish, "Configuración inicializada");
        self.add_translation("cli.config_initialized", Language::French, "Configuration initialisée");
        self.add_translation("cli.config_initialized", Language::German, "Konfiguration initialisiert");
        self.add_translation("cli.config_initialized", Language::Russian, "Конфигурация инициализирована");
    }

    fn load_error_defaults(&mut self)
        requires
            old(self).wf(),
        ensures
            final(self).wf(),
    {
        self.add_translation("error.no_config_found", Language::English, "No configuration file found");
        self.add_translation("error.no_config_found", Language::Chinese, "未找到配置文件");
        self.add_translation("error.no_config_found", Language::Japanese, "設定ファイルが見つかりません");
        self.add_translation("error.no_config_found", Language::Korean, "구성 파일을 찾을 수 없습니다");
        self.add_translation("error.no_config_found", Language::Spanish, "No se encontró archivo de configuración");
        self.add_translation("error.no_config_found", Language::French, "Fichier de configuration non trouvé");
        self.add_translation("error.no_config_found", Language::German, "Keine Konfigurationsdatei gefunden");
        self.add_translation("error.no_config_found", Language::Russian, "Файл конфигурации не найден");
        self.add_translation("error.connection_failed", Language::English, "Connection failed");
        self.add_translation("error.connection_failed", Language::Chinese, "连接失败");
        self.add_translation("error.connection_failed", Language::Japanese, "接続に失敗しました");
        self.add_translation("error.connection_failed", Language::Korean, "연결에 실패했습니다");
        self.add_translation("error.connection_failed", Language::Spanish, "Conexión fallida");
        self.add_translation("error.connection_failed", Language::French, "Échec de la connexion");
        self.add_translation("error.connection_failed", Language::German, "Verbindung fehlgeschlagen");
        self.add_translation("error.connection_failed", Language::Russian, "Ошибка подключения");
        self.add_translation("error.authentication_failed", Language::English, "Authentication failed");
        self.add_translation("error.authentication_failed", Language::Chinese, "身份验证失败");
        self.add_translation("error.authentication_failed", Language::Japanese, "認証に失敗しました");
        self.add_translation("error.authentication_failed", Language::Korean, "인증에 실패했습니다");
        self.add_translation("error.authentication_failed", Language::Spanish, "Autenticación fallida");
        self.add_translation("error.authentication_failed", Language::French, "Échec de l'authentification");
        self.add_translation("error.authentication_failed", Language::German, "Authentifizierung fehlgeschlagen");
        self.add_translation("error.authentication_failed", Language::Russian, "Ошибка аутентификации");
    }

    fn load_config_message_defaults(&mut self)
        requires
            old(self).wf(),
        ensures
            final(self).wf(),
    {
        self.add_translation("cli.version_info", Language::English, "Astra.nvim Core");
        self.add_translation("cli.version_info", Language::Chinese, "Astra.nvim 核心");
        self.add_translation("cli.version_info", Language::Japanese, "Astra.nvim コア");
        self.add_translation("cli.version_info", Language::Korean, "Astra.nvim 코어");
        self.add_translation("cli.version_info", Language::Spanish, "Astra.nvm Core");
        self.add_translation("cli.version_info", Language::French, "Astra.nvim Core");
        self.add_translation("cli.version_info", Language::German, "Astra.nvim Core");
        self.add_translation("cli.version_info", Language::Russian, "Astra.nvim Core");
        self.add_translation("cli.testing_config", Language::English, "Testing configuration");
        self.add_translation("cli.testing_config", Language::Chinese, "测试配置");
        self.add_translation("cli.testing_config", Language::Japanese, "設定をテスト中");
        self.add_translation("cli.testing_config", Language::Korean, "구성 테스트 중");
        self.add_translation("cli.testing_config", Language::Spanish, "Probando configuración");
        self.add_translation("cli.testing_config", Language::French, "Test de configuration");
        self.add_translation("cli.testing_config", Language::German, "Konfiguration testen");
        self.add_translation("cli.testing_config", Language::Russian, "Тестирование конфигурации");
        self.add_translation("cli.config_loaded", Language::English, "Configuration loaded successfully");
        self.add_translation("cli.config_loaded", Language::Chinese, "配置加载成功");
        self.add_translation("cli.config_loaded", Language::Japanese, "設定が正常に読み込まれました");
        self.add_translation("cli.config_loaded", Language::Korean, "구성이 성공적으로 로드되었습니다");
        self.add_translation("cli.config_loaded", Language::Spanish, "Configuración cargada con éxito");
        self.add_translation("cli.config_loaded", Language::French, "Configuration chargée avec succès");
        self.add_translation("cli.config_loaded", Language::German, "Konfiguration erfolgreich geladen");
        self.add_translation("cli.config_loaded", Language::Russian, "Конфигурация успешно загружена");
    }

    fn load_update_message_defaults(&mut self)
        requires
            old(self).wf(),
        ensures
            final(self).wf(),
    {
        self.add_translation("cli.checking_updates", Language::English, "Checking for updates");
        self.add_translation("cli.checking_updates", Language::Chinese, "检查更新");
        self.add_translation("cli.checking_updates", Language::Japanese, "更新を確認中");
        self.add_translation("cli.checking_updates", Language::Korean, "업데이트 확인 중");
        self.add_translation("cli.checking_updates", Language::Spanish, "Buscando actualizaciones");
        self.add_translation("cli.checking_updates", Language::French, "Vérification des mises à jour");
        self.add_translation("cli.checking_updates", Language::German, "Nach Updates suchen");
        self.add_translation("cli.checking_updates", Language::Russian, "Проверка обновлений");
        self.add_translation("cli.up_to_date", Language::English, "Already up to date");
        self.add_translation("cli.up_to_date", Language::Chinese, "已是最新版本");
        self.add_translation("cli.up_to_date", Language::Japanese, "最新バージョンです");
        self.add_translation("cli.up_to_date", Language::Korean, "최신 버전입니다");
        self.add_translation("cli.up_to_date", Language::Spanish, "Ya está actualizado");
        self.add_translation("cli.up_to_date", Language::French, "Déjà à jour");
        self.add_translation("cli.up_to_date", Language::German, "Bereits auf dem neuesten Stand");
        self.add_translation("cli.up_to_date", Language::Russian, "Уже обновлено");
        self.add_translation("cli.sync_complete", Language::English, "Sync completed successfully");
        self.add_translation("cli.sync_complete", Language::Chinese, "同步成功完成");
        self.add_translation("cli.sync_complete", Language::Japanese, "同期が正常に完了しました");
        self.add_translation("cli.sync_complete", Language::Korean, "동기화가 성공적으로 완료되었습니다");
        self.add_translation("cli.sync_complete", Language::Spanish, "Sincronización completada con éxito");
        self.add_translation("cli.sync_complete", Language::French, "Synchronisation terminée avec succès");
        self.add_translation("cli.sync_complete", Language::German, "Synchronisierung erfolgreich abgeschlossen");
        self.add_translation("cli.sync_complete", Language::Russian, "Синхронизация успешно завершена");
    }

    fn load_operation_message_defaults(&mut self)
        requires
            old(self).wf(),
        ensures
            final(self).wf(),
    {
        self.add_translation("cli.sync_failed", Language::English, "Sync failed with {0} errors");
        self.add_translation("cli.sync_failed", Language::Chinese, "同步失败，出现 {0} 个错误");
        self.add_translation("cli.sync_failed", Language::Japanese, "同期に失敗しました。{0} 個のエラーがあります");
        self.add_translation("cli.sync_failed", Language::Korean, "동기화 실패, {0}개 오류 발생");
        self.add_translation("cli.sync_failed", Language::Spanish, "Sincronización fallida con {0} errores");
        self.add_translation("cli.sync_failed", Language::French, "Échec de la synchronisation avec {0} erreurs");
        self.add_translation("cli.sync_failed", Language::German, "Synchronisierung fehlgeschlagen mit {0} Fehlern");
        self.add_translation("cli.sync_failed", Language::Russian, "Синхронизация не удалась с {0} ошибками");
        self.add_translation("cli.upload_operation", Language::English, "Uploading: {0} -> {1}");
        self.add_translation("cli.upload_operation", Language::Chinese, "上传中: {0} -> {1}");
        self.add_translation("cli.upload_operation", Language::Japanese, "アップロード中: {0} -> {1}");
        self.add_translation("cli.upload_operation", Language::Korean, "업로드 중: {0} -> {1}");
        self.add_translation("cli.upload_operation", Language::Spanish, "Subiendo: {0} -> {1}");
        self.add_translation("cli.upload_operation", Language::French, "Téléchargement: {0} -> {1}");
        self.add_translation("cli.upload_operation", Language::German, "Lade hoch: {0} -> {1}");
        self.add_translation("cli.upload_operation", Language::Russian, "Загрузка: {0} -> {1}");
        self.add_translation("cli.download_operation", Language::English, "Downloading: {0} -> {1}");
        self.add_translation("cli.download_operation", Language::Chinese, "下载中: {0} -> {1}");
        self.add_translation("cli.download_operation", Language::Japanese, "ダウンロード中: {0} -> {1}");
        self.add_translation("cli.download_operation", Language::Korean, "다운로드 중: {0} -> {1}");
        self.add_translation("cli.download_operation", Language::Spanish, "Descargando: {0} -> {1}");
        self.add_translation("cli.download_operation", Language::French, "Téléchargement: {0} -> {1}");
        self.add_translation("cli.download_operation", Language::German, "Lade herunter: {0} -> {1}");
        self.add_translation("cli.download_operation", Language::Russian, "Скачивание: {0} -> {1}");
    }

    fn load_report_message_defaults(&mut self)
        requires
            old(self).wf(),
        ensures
            final(self).wf(),
    {
        self.add_translation("cli.pending_operations", Language::English, "Pending operations: {0}");
        self.add_translation("cli.pending_operations", Language::Chinese, "待处理操作: {0}");
        self.add_translation("cli.pending_operations", Language::Japanese, "保留中の操作: {0}");
        self.add_translation("cli.pending_operations", Language::Korean, "보류 중인 작업: {0}");
        self.add_translation("cli.pending_operations", Language::Spanish, "Operaciones pendientes: {0}");
        self.add_translation("cli.pending_operations", Language::French, "Opérations en attente: {0}");
        self.add_translation("cli.pending_operations", Language::German, "Ausstehende Operationen: {0}");
        self.add_translation("cli.pending_operations", Language::Russian, "Ожидающие операции: {0}");
        self.add_translation("error.upload_failed", Language::English, "Upload failed");
        self.add_translation("error.upload_failed", Language::Chinese, "上传失败");
        self.add_translation("error.upload_failed", Language::Japanese, "アップロードに失敗しました");
        self.add_translation("error.upload_failed", Language::Korean, "업로드 실패");
        self.add_translation("error.upload_failed", Language::Spanish, "Error al subir");
        self.add_translation("error.upload_failed", Language::French, "Échec du téléchargement");
        self.add_translation("error.upload_failed", Language::German, "Hochladen fehlgeschlagen");
        self.add_translation("error.upload_failed", Language::Russian, "Ошибка загрузки");
        self.add_translation("cli.config_error", Language::English, "Configuration error: {0}");
        self.add_translation("cli.config_error", Language::Chinese, "配置错误: {0}");
        self.add_translation("cli.config_error", Language::Japanese, "設定エラー: {0}");
        self.add_translation("cli.config_error", Language::Korean, "구성 오류: {0}");
        self.add_translation("cli.config_error", Language::Spanish, "Error de configuración: {0}");
        self.add_translation("cli.config_error", Language::French, "Erreur de configuration: {0}");
        self.add_translation("cli.config_error", Language::German, "Konfigurationsfehler: {0}");
        self.add_translation("cli.config_error", Language::Russian, "Ошибка конфигурации: {0}");
    }

    /// Fill the store with the built-in messages.
    pub fn load_default_translations(&mut self)
        requires
            old(self).wf(),
        ensures
            final(self).wf(),
    {
        self.load_common_defaults();
        self.load_sync_message_defaults();
        self.load_error_defaults();
        self.load_config_message_defaults();
        self.load_update_message_defaults();
        self.load_operation_message_defaults();
        self.load_report_message_defaults();
    }
    /// Record a caller-supplied translation.
    pub fn add_custom_translation(&mut self, key: &str, language: Language, message: String)
        requires
            old(self).wf(),
        ensures
            final(self).wf(),
            spec_translation(final(self)@, key@, language) == Some(message@),
            forall|k: Seq<char>, l: Language| k != key@ || l != language ==> spec_translation(
                final(self)@, k, l) == spec_translation(old(self)@, k, l),
    {
        self.add_translation(key, language, message.as_str());
    }
}

proof fn lemma_entry_update(
    olde: TranslationEntryV,
    newe: TranslationEntryV,
    a: int,
    language: Language,
    message: Seq<char>,
)
    requires
        forall|x: int, y: int| 0 <= x < y < olde.translations.len()
            ==> (#[trigger] olde.translations[x]).language
            != (#[trigger] olde.translations[y]).language,
        newe.translations.len() == olde.translations.len(),
        0 <= a < olde.translations.len(),
        forall|b: int| 0 <= b < newe.translations.len() && b != a ==> newe.translations[b]
            == olde.translations[b],
        olde.translations[a].language == language,
        newe.translations[a] == (LanguageMessageV { language, message }),
    ensures
        forall|x: int, y: int| 0 <= x < y < newe.translations.len()
            ==> (#[trigger] newe.translations[x]).language
            != (#[trigger] newe.translations[y]).language,
        entry_has_lang(newe, language),
        entry_message(newe, language) == message,
        forall|l: Language| l != language ==> entry_lookup(newe, l) == entry_lookup(olde, l),
{
    assert forall|x: int, y: int| 0 <= x < y < newe.translations.len() implies (
        #[trigger] newe.translations[x]).language != (#[trigger] newe.translations[y]).language
        by {
        assert(newe.translations[x].language == olde.translations[x].language);
        assert(newe.translations[y].language == olde.translations[y].language);
    }
    lemma_message_at(newe, language, a);
    assert forall|l: Language| l != language implies entry_lookup(newe, l) == entry_lookup(olde,
        l) by {
        if entry_has_lang(olde, l) {
            let b = choose|b: int| 0 <= b < olde.translations.len()
                && olde.translations[b].language == l;
            assert(b != a);
            lemma_message_at(olde, l, b);
            lemma_message_at(newe, l, b);
        } else {
            if entry_has_lang(newe, l) {
                let b = choose|b: int| 0 <= b < newe.translations.len()
                    && newe.translations[b].language == l;
                assert(b != a);
                assert(olde.translations[b].language == l);
            }
        }
    }
}

proof fn lemma_entry_append(
    olde: TranslationEntryV,
    newe: TranslationEntryV,
    language: Language,
    message: Seq<char>,
)
    requires
        forall|x: int, y: int| 0 <= x < y < olde.translations.len()
            ==> (#[trigger] olde.translations[x]).language
            != (#[trigger] olde.translations[y]).language,
        !entry_has_lang(olde, language),
        newe.translations =~= olde.translations.push(LanguageMessageV { language, message }),
    ensures
        forall|x: int, y: int| 0 <= x < y < newe.translations.len()
            ==> (#[trigger] newe.translations[x]).language
            != (#[trigger] newe.translations[y]).language,
        entry_has_lang(newe, language),
        entry_message(newe, language) == message,
        forall|l: Language| l != language ==> entry_lookup(newe, l) == entry_lookup(olde, l),
{
    let last = olde.translations.len() as int;
    assert forall|x: int, y: int| 0 <= x < y < newe.translations.len() implies (
        #[trigger] newe.translations[x]).language != (#[trigger] newe.translations[y]).language
        by {
        if y == last {
            assert(newe.translations[x] == olde.translations[x]);
            if newe.translations[x].language == language {
                assert(entry_has_lang(olde, language));
            }
        } else {
            assert(newe.translations[x] == olde.translations[x]);
            assert(newe.translations[y] == olde.translations[y]);
        }
    }
    lemma_message_at(newe, language, last);
    assert forall|l: Language| l != language implies entry_lookup(newe, l) == entry_lookup(olde,
        l) by {
        if entry_has_lang(olde, l) {
            let b = choose|b: int| 0 <= b < olde.translations.len()
                && olde.translations[b].language == l;
            lemma_message_at(olde, l, b);
            lemma_message_at(newe, l, b);
        } else {
            if entry_has_lang(newe, l) {
                let b = choose|b: int| 0 <= b < newe.translations.len()
                    && newe.translations[b].language == l;
                assert(b != last);
                assert(olde.translations[b].language == l);
            }
        }
    }
}

proof fn lemma_update_facts(
    olds: Seq<TranslationEntryV>,
    news: Seq<TranslationEntryV>,
    ii: int,
    olde: TranslationEntryV,
    language: Language,
    message: Seq<char>,
)
    requires
        forall|a: int, b: int| 0 <= a < b < olds.len() ==> olds[a].key != olds[b].key,
        forall|i: int, a: int, b: int| 0 <= i < olds.len() && 0 <= a < b
            < olds[i].translations.len() ==> (#[trigger] olds[i].translations[a]).language
            != (#[trigger] olds[i].translations[b]).language,
        news.len() == olds.len(),
        0 <= ii < olds.len(),
        forall|a: int| 0 <= a < news.len() && a != ii ==> news[a] == olds[a],
        news[ii].key == olds[ii].key,
        olde == olds[ii],
        // the updated entry holds the new message for the language and
        // is otherwise unchanged
        forall|a: int, b: int| 0 <= a < b < news[ii].translations.len()
            ==> (#[trigger] news[ii].translations[a]).language
            != (#[trigger] news[ii].translations[b]).language,
        entry_has_lang(news[ii], language),
        entry_message(news[ii], language) == message,
        forall|l: Language| l != language ==> entry_lookup(news[ii], l) == entry_lookup(olde,
            l),
    ensures
        forall|a: int, b: int| 0 <= a < b < news.len() ==> news[a].key != news[b].key,
        forall|i: int, a: int, b: int| 0 <= i < news.len() && 0 <= a < b
            < news[i].translations.len() ==> (#[trigger] news[i].translations[a]).language
            != (#[trigger] news[i].translations[b]).language,
        spec_translation(news, olds[ii].key, language) == Some(message),
        forall|k: Seq<char>, l: Language| k != olds[ii].key || l != language
            ==> spec_translation(news, k, l) == spec_translation(olds, k, l),
{
    let key = olds[ii].key;
    assert(forall|a: int, b: int| 0 <= a < b < news.len() ==> news[a].key != news[b].key);
    lemma_entry_at(news, key, ii);
    lemma_entry_at(olds, key, ii);
    assert(spec_translation(news, key, language) == Some(message));
    assert forall|k: Seq<char>, l: Language| k != key || l != language implies spec_translation(
        news, k, l) == spec_translation(olds, k, l) by {
        if k != key {
            if store_has_key(olds, k) {
                let a = choose|a: int| 0 <= a < olds.len() && olds[a].key == k;
                assert(a != ii);
                lemma_entry_at(olds, k, a);
                lemma_entry_at(news, k, a);
            } else {
                if store_has_key(news, k) {
                    let a = choose|a: int| 0 <= a < news.len() && news[a].key == k;
                    assert(a != ii);
                    assert(olds[a].key == k);
                }
            }
        } else {
            // same key, other language: the entry lookup is unchanged
            assert(entry_lookup(news[ii], l) == entry_lookup(olde, l));
            assert(spec_translation(news, k, l) == entry_lookup(news[ii], l));
            assert(spec_translation(olds, k, l) == entry_lookup(olds[ii], l));
        }
    }
}

proof fn lemma_append_facts(
    olds: Seq<TranslationEntryV>,
    news: Seq<TranslationEntryV>,
    language: Language,
    message: Seq<char>,
)
    requires
        forall|a: int, b: int| 0 <= a < b < olds.len() ==> olds[a].key != olds[b].key,
        forall|i: int, a: int, b: int| 0 <= i < olds.len() && 0 <= a < b
            < olds[i].translations.len() ==> (#[trigger] olds[i].translations[a]).language
            != (#[trigger] olds[i].translations[b]).language,
        news.len() == olds.len() + 1,
        forall|a: int| 0 <= a < olds.len() ==> news[a] == olds[a],
        !store_has_key(olds, news[olds.len() as int].key),
        news[olds.len() as int].translations =~= seq![
            LanguageMessageV { language, message },
        ],
    ensures
        forall|a: int, b: int| 0 <= a < b < news.len() ==> news[a].key != news[b].key,
        forall|i: int, a: int, b: int| 0 <= i < news.len() && 0 <= a < b
            < news[i].translations.len() ==> (#[trigger] news[i].translations[a]).language
            != (#[trigger] news[i].translations[b]).language,
        spec_translation(news, news[olds.len() as int].key, language) == Some(message),
        forall|k: Seq<char>, l: Language| k != news[olds.len() as int].key || l != language
            ==> spec_translation(news, k, l) == spec_translation(olds, k, l),
{
    let key = news[olds.len() as int].key;
    let e = news[olds.len() as int];
    assert forall|a: int, b: int| 0 <= a < b < news.len() implies news[a].key != news[b].key by {
        if b == olds.len() {
            assert(news[a] == olds[a]);
            if news[a].key == key {
                assert(store_has_key(olds, key));
            }
        }
    }
    lemma_entry_at(news, key, olds.len() as int);
    lemma_message_at(e, language, 0);
    assert(spec_translation(news, key, language) == Some(message));
    assert forall|k: Seq<char>, l: Language| k != key || l != language implies spec_translation(
        news, k, l) == spec_translation(olds, k, l) by {
        if k != key {
            if store_has_key(olds, k) {
                let a = choose|a: int| 0 <= a < olds.len() && olds[a].key == k;
                lemma_entry_at(olds, k, a);
                lemma_entry_at(news, k, a);
            } else {
                if store_has_key(news, k) {
                    let a = choose|a: int| 0 <= a < news.len() && news[a].key == k;
                    assert(a != olds.len());
                    assert(olds[a].key == k);
                }
            }
        } else {
            // same new key, other language: the fresh entry has no other language
            lemma_entry_at(news, key, olds.len() as int);
            if entry_has_lang(e, l) {
                let a = choose|a: int| 0 <= a < e.translations.len() && e.translations[a].language
                    == l;
                assert(e.translations[a] == LanguageMessageV { language, message });
            }
            assert(spec_translation(news, k, l) is None);
            assert(spec_translation(olds, k, l) is None);
        }
    }
}

/// The entry's message in this language, if any.
pub open spec fn entry_lookup(e: TranslationEntryV, lang: Language) -> Option<Seq<char>> {
    if entry_has_lang(e, lang) {
        Some(entry_message(e, lang))
    } else {
        None
    }
}

/// Translate a key for a language, with fallback to English and to the
/// key itself.
pub fn t(store: &TranslationStore, key: &str, language: &Language) -> (r: String)
    requires
        store.wf(),
    ensures
        r@ == spec_translation_or_fallback(store@, key@, *language),
{
    store.get_translation_or_fallback(key, language)
}

/// Translate a key for the default language.
pub fn t_default(store: &TranslationStore, key: &str) -> (r: String)
    requires
        store.wf(),
    ensures
        r@ == spec_translation_or_fallback(store@, key@, Language::English),
{
    t(store, key, &Language::English)
}

/// What `detect_language` decides.
pub open spec fn spec_detect_language(
    tool_language: Option<Seq<char>>,
    locale_language: Option<Seq<char>>,
) -> Language {
    match tool_language {
        Some(ts) => match spec_language_from(ts) {
            Some(lang) => lang,
            None => spec_detect_from_locale(locale_language),
        },
        None => spec_detect_from_locale(locale_language),
    }
}

} // verus!
