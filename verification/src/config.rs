//! The settings-file grammar.
//!
//! A settings file is a sequence of lines. On each line everything from the
//! first `#` on is a comment; what remains, trimmed of white space, is either
//! empty or `key = value`, split at the first `=`, with key and value trimmed
//! again. Lines naming an unknown key, and lines without `=`, are ignored.
use vstd::prelude::*;

verus! {

broadcast use vstd::string::group_string_axioms;

/// The settings a settings file may assign.
#[derive(Clone, Copy, Debug, PartialEq, Eq, Structural)]
pub enum SettingKey {
    Sensitivity,
    HorizontalFov,
    SessionSeconds,
    TargetScale,
    ProjectileSpeed,
    MovementSpeed,
    Fullscreen,
    LeadGuide,
}

/// The setting a key names in a settings file.
pub open spec fn key_named(name: Seq<char>) -> Option<SettingKey> {
    if name == "sensitivity"@ {
        Some(SettingKey::Sensitivity)
    } else if name == "horizontal_fov"@ {
        Some(SettingKey::HorizontalFov)
    } else if name == "session_seconds"@ {
        Some(SettingKey::SessionSeconds)
    } else if name == "target_scale"@ {
        Some(SettingKey::TargetScale)
    } else if name == "projectile_speed"@ {
        Some(SettingKey::ProjectileSpeed)
    } else if name == "movement_speed"@ {
        Some(SettingKey::MovementSpeed)
    } else if name == "fullscreen"@ {
        Some(SettingKey::Fullscreen)
    } else if name == "lead_guide"@ {
        Some(SettingKey::LeadGuide)
    } else {
        None
    }
}

/// The name a settings file uses for a setting.
pub open spec fn setting_name(key: SettingKey) -> Seq<char> {
    match key {
        SettingKey::Sensitivity => "sensitivity"@,
        SettingKey::HorizontalFov => "horizontal_fov"@,
        SettingKey::SessionSeconds => "session_seconds"@,
        SettingKey::TargetScale => "target_scale"@,
        SettingKey::ProjectileSpeed => "projectile_speed"@,
        SettingKey::MovementSpeed => "movement_speed"@,
        SettingKey::Fullscreen => "fullscreen"@,
        SettingKey::LeadGuide => "lead_guide"@,
    }
}

proof fn lemma_name_facts(key: SettingKey)
    ensures
        setting_name(key).len() > 0,
        !is_white_space(setting_name(key)[0]),
        !is_white_space(setting_name(key).last()),
        forall|j: int| 0 <= j < setting_name(key).len() ==> setting_name(key)[j] != '#' && setting_name(key)[j] != '=',
        key_named(setting_name(key)) == Some(key),
{
    reveal_strlit("sensitivity");
    reveal_strlit("horizontal_fov");
    reveal_strlit("session_seconds");
    reveal_strlit("target_scale");
    reveal_strlit("projectile_speed");
    reveal_strlit("movement_speed");
    reveal_strlit("fullscreen");
    reveal_strlit("lead_guide");
    assert("movement_speed"@[0] != "horizontal_fov"@[0]);
    assert("lead_guide"@[0] != "fullscreen"@[0]);
    assert("movement_speed"@.len() != "sensitivity"@.len());
}

/// Characters with the Unicode `White_Space` property.
pub open spec fn is_white_space(c: char) -> bool {
    let u = c as u32;
    ||| 0x09 <= u <= 0x0d
    ||| u == 0x20
    ||| u == 0x85
    ||| u == 0xa0
    ||| u == 0x1680
    ||| 0x2000 <= u <= 0x200a
    ||| u == 0x2028
    ||| u == 0x2029
    ||| u == 0x202f
    ||| u == 0x205f
    ||| u == 0x3000
}

/// Position of the first `c` in `s`, or `s.len()` when there is none.
pub open spec fn first_index_of(s: Seq<char>, c: char) -> nat
    decreases s.len(),
{
    if s.len() == 0 {
        0
    } else if s[0] == c {
        0
    } else {
        1 + first_index_of(s.drop_first(), c)
    }
}

/// Number of white-space characters at the start of `s`.
pub open spec fn leading_white(s: Seq<char>) -> nat
    decreases s.len(),
{
    if s.len() == 0 {
        0
    } else if is_white_space(s[0]) {
        1 + leading_white(s.drop_first())
    } else {
        0
    }
}

/// Number of white-space characters at the end of `s`.
pub open spec fn trailing_white(s: Seq<char>) -> nat
    decreases s.len(),
{
    if s.len() == 0 {
        0
    } else if is_white_space(s.last()) {
        1 + trailing_white(s.drop_last())
    } else {
        0
    }
}

/// `s` without leading and trailing white space.
pub open spec fn trim(s: Seq<char>) -> Seq<char> {
    let t = s.skip(leading_white(s) as int);
    t.take(t.len() - trailing_white(t))
}

/// The assignment a single line makes, if any.
pub open spec fn line_entry(line: Seq<char>) -> Option<(SettingKey, Seq<char>)> {
    let body = trim(line.take(first_index_of(line, '#') as int));
    let eq = first_index_of(body, '=');
    if eq >= body.len() {
        None
    } else {
        match key_named(trim(body.take(eq as int))) {
            Some(key) => Some((key, trim(body.skip(eq + 1int)))),
            None => None,
        }
    }
}

/// Assignments made by the lines of `text` that start at `start`, in order.
pub open spec fn entries_from(text: Seq<char>, start: int) -> Seq<(SettingKey, Seq<char>)>
    decreases text.len() - start,
{
    if start < 0 || start > text.len() {
        Seq::empty()
    } else {
        let end = start + first_index_of(text.skip(start), '\n');
        let here = line_entry(text.subrange(start, end));
        let tail = if end < text.len() {
            proof {
                lemma_first_index_props(text.skip(start), '\n');
            }
            entries_from(text, end + 1)
        } else {
            Seq::empty()
        };
        match here {
            Some(entry) => seq![entry] + tail,
            None => tail,
        }
    }
}

/// Assignments made by a settings file, in file order.
pub open spec fn config_entries(text: Seq<char>) -> Seq<(SettingKey, Seq<char>)> {
    entries_from(text, 0)
}

/// One assignment read from a settings file.
pub struct ConfigEntry<'a> {
    pub key: SettingKey,
    /// The assigned value, trimmed, as it appears in the file.
    pub value: &'a str,
}

pub open spec fn entry_view<'a>(entry: ConfigEntry<'a>) -> (SettingKey, Seq<char>) {
    (entry.key, entry.value@)
}

proof fn lemma_first_index(s: Seq<char>, c: char, k: int)
    requires
        0 <= k <= s.len(),
        forall|j: int| 0 <= j < k ==> s[j] != c,
        k == s.len() || s[k] == c,
    ensures
        first_index_of(s, c) == k,
    decreases s.len(),
{
    if s.len() > 0 && k > 0 {
        lemma_first_index(s.drop_first(), c, k - 1);
    }
}

proof fn lemma_leading(s: Seq<char>, k: int)
    requires
        0 <= k <= s.len(),
        forall|j: int| 0 <= j < k ==> is_white_space(s[j]),
        k == s.len() || !is_white_space(s[k]),
    ensures
        leading_white(s) == k,
    decreases s.len(),
{
    if s.len() > 0 && k > 0 {
        lemma_leading(s.drop_first(), k - 1);
    }
}

proof fn lemma_trailing(s: Seq<char>, k: int)
    requires
        0 <= k <= s.len(),
        forall|j: int| s.len() - k <= j < s.len() ==> is_white_space(s[j]),
        k == s.len() || !is_white_space(s[s.len() - 1 - k]),
    ensures
        trailing_white(s) == k,
    decreases s.len(),
{
    if s.len() > 0 && k > 0 {
        lemma_trailing(s.drop_last(), k - 1);
    }
}

/// Where the first `c` of `s` stands: nothing before it is `c`.
pub proof fn lemma_first_index_props(s: Seq<char>, c: char)
    ensures
        first_index_of(s, c) <= s.len(),
        forall|j: int| 0 <= j < first_index_of(s, c) ==> s[j] != c,
        first_index_of(s, c) < s.len() ==> s[first_index_of(s, c) as int] == c,
    decreases s.len(),
{
    if s.len() > 0 && s[0] != c {
        lemma_first_index_props(s.drop_first(), c);
        assert forall|j: int| 0 <= j < first_index_of(s, c) implies s[j] != c by {
            if j > 0 {
                assert(s[j] == s.drop_first()[j - 1]);
            }
        }
    }
}

proof fn lemma_entries_shift(p: Seq<char>, b: Seq<char>, s: int)
    requires
        0 <= s <= b.len(),
    ensures
        entries_from(p + b, p.len() + s) == entries_from(b, s),
    decreases b.len() - s,
{
    let text = p + b;
    let start = p.len() + s;
    assert(text.skip(start) =~= b.skip(s));
    let f = first_index_of(b.skip(s), '\n');
    lemma_first_index_props(b.skip(s), '\n');
    assert(text.subrange(start, start + f) =~= b.subrange(s, s + f));
    if s + f < b.len() {
        lemma_entries_shift(p, b, s + f + 1);
    }
}

proof fn lemma_entries_concat(a: Seq<char>, b: Seq<char>, start: int)
    requires
        0 <= start <= a.len(),
    ensures
        entries_from(a + seq!['\n'] + b, start) == entries_from(a, start) + entries_from(b, 0),
    decreases a.len() - start,
{
    let text = a + seq!['\n'] + b;
    let fa = first_index_of(a.skip(start), '\n');
    lemma_first_index_props(a.skip(start), '\n');
    let end = start + fa;
    assert forall|j: int| 0 <= j < fa implies text.skip(start)[j] != '\n' by {
        assert(text.skip(start)[j] == a.skip(start)[j]);
    }
    if end < a.len() {
        assert(text.skip(start)[fa as int] == a.skip(start)[fa as int]);
        lemma_first_index(text.skip(start), '\n', fa as int);
        assert(text.subrange(start, end) =~= a.subrange(start, end));
        lemma_entries_concat(a, b, end + 1);
        assert(entries_from(a, start) == match line_entry(a.subrange(start, end)) {
            Some(e) => seq![e] + entries_from(a, end + 1),
            None => entries_from(a, end + 1),
        });
        assert(entries_from(text, start) == match line_entry(a.subrange(start, end)) {
            Some(e) => seq![e] + entries_from(text, end + 1),
            None => entries_from(text, end + 1),
        });
        match line_entry(a.subrange(start, end)) {
            Some(e) => {
                assert(seq![e] + (entries_from(a, end + 1) + entries_from(b, 0)) =~= (seq![e]
                    + entries_from(a, end + 1)) + entries_from(b, 0));
            },
            None => {},
        }
    } else {
        assert(end == a.len());
        assert(text.skip(start)[fa as int] == '\n');
        lemma_first_index(text.skip(start), '\n', fa as int);
        assert(text.subrange(start, end) =~= a.subrange(start, end));
        lemma_entries_shift(a + seq!['\n'], b, 0);
        assert(a + seq!['\n'] + b == text);
        assert(entries_from(text, end + 1) == entries_from(b, 0));
        match line_entry(a.subrange(start, end)) {
            Some(e) => {
                assert(entries_from(a, start) =~= seq![e]);
            },
            None => {
                assert(entries_from(a, start) =~= Seq::<(SettingKey, Seq<char>)>::empty());
            },
        }
    }
}

proof fn lemma_leading_props(s: Seq<char>)
    ensures
        leading_white(s) <= s.len(),
        forall|j: int| 0 <= j < leading_white(s) ==> is_white_space(s[j]),
        leading_white(s) < s.len() ==> !is_white_space(s[leading_white(s) as int]),
    decreases s.len(),
{
    if s.len() > 0 && is_white_space(s[0]) {
        lemma_leading_props(s.drop_first());
        assert forall|j: int| 0 <= j < leading_white(s) implies is_white_space(s[j]) by {
            if j > 0 {
                assert(s[j] == s.drop_first()[j - 1]);
            }
        }
    }
}

proof fn lemma_trailing_props(s: Seq<char>)
    ensures
        trailing_white(s) <= s.len(),
        forall|j: int| s.len() - trailing_white(s) <= j < s.len() ==> is_white_space(s[j]),
        trailing_white(s) < s.len() ==> !is_white_space(s[s.len() - 1 - trailing_white(s)]),
    decreases s.len(),
{
    if s.len() > 0 && is_white_space(s.last()) {
        lemma_trailing_props(s.drop_last());
        assert forall|j: int| s.len() - trailing_white(s) <= j < s.len() implies is_white_space(s[j]) by {
            if j < s.len() - 1 {
                assert(s[j] == s.drop_last()[j]);
            }
        }
    }
}

/// Trimming keeps `a..b` when white space fills `s` outside it and `a..b`
/// starts and ends with other characters.
proof fn lemma_trim_bounds(s: Seq<char>, a: int, b: int)
    requires
        0 <= a <= b <= s.len(),
        forall|j: int| 0 <= j < a ==> is_white_space(s[j]),
        forall|j: int| b <= j < s.len() ==> is_white_space(s[j]),
        a < b ==> !is_white_space(s[a]) && !is_white_space(s[b - 1]),
        a == b ==> forall|j: int| 0 <= j < s.len() ==> is_white_space(s[j]),
    ensures
        trim(s) == s.subrange(a, b),
{
    if a < b {
        lemma_leading(s, a);
        let t = s.skip(a);
        lemma_trailing(t, s.len() - b);
        assert(t.take(t.len() - (s.len() - b)) =~= s.subrange(a, b));
    } else {
        lemma_leading(s, s.len() as int);
        assert(trim(s) =~= s.subrange(a, b));
    }
}

/// Where white space ends at the front of `value` and starts at its back.
proof fn lemma_value_bounds(value: Seq<char>) -> (ab: (int, int))
    ensures
        0 <= ab.0 <= ab.1 <= value.len(),
        forall|j: int| 0 <= j < ab.0 ==> is_white_space(value[j]),
        forall|j: int| ab.1 <= j < value.len() ==> is_white_space(value[j]),
        ab.0 < ab.1 ==> !is_white_space(value[ab.0]) && !is_white_space(value[ab.1 - 1]),
        ab.0 == ab.1 ==> forall|j: int| 0 <= j < value.len() ==> is_white_space(value[j]),
        trim(value) == value.subrange(ab.0, ab.1),
{
    lemma_leading_props(value);
    let a = leading_white(value) as int;
    let t = value.skip(a);
    lemma_trailing_props(t);
    let b = value.len() - trailing_white(t);
    assert forall|j: int| b <= j < value.len() implies is_white_space(value[j]) by {
        assert(value[j] == t[j - a]);
    }
    if a < b {
        assert(value[b - 1] == t[t.len() - 1 - trailing_white(t)]);
    }
    lemma_trim_bounds(value, a, b);
    (a, b)
}

/// Law: trimming removes exactly the white space at both ends of a text.
pub proof fn law_trim_strips_white_space(s: Seq<char>)
    ensures
        exists|a: int, b: int| {
            &&& 0 <= a <= b <= s.len()
            &&& #[trigger] s.subrange(a, b) == trim(s)
            &&& forall|j: int| 0 <= j < a ==> is_white_space(s[j])
            &&& forall|j: int| b <= j < s.len() ==> is_white_space(s[j])
            &&& a < b ==> !is_white_space(s[a]) && !is_white_space(s[b - 1])
        },
{
    let (a, b) = lemma_value_bounds(s);
    assert(s.subrange(a, b) == trim(s));
}

/// Law: a line `name=value` without a comment assigns the named setting the
/// value trimmed of white space, for every setting name and every value.
pub proof fn law_assignment_line(key: SettingKey, value: Seq<char>)
    requires
        forall|j: int| 0 <= j < value.len() ==> value[j] != '#',
    ensures
        line_entry(setting_name(key) + seq!['='] + value) == Some((key, trim(value))),
{
    lemma_name_facts(key);
    let k = setting_name(key);
    let kl = k.len() as int;
    let line = k + seq!['='] + value;
    assert forall|j: int| 0 <= j < line.len() implies line[j] != '#' by {
        if j < kl {
            assert(line[j] == k[j]);
        } else if j > kl {
            assert(line[j] == value[j - kl - 1]);
        }
    }
    lemma_first_index(line, '#', line.len() as int);
    assert(line.take(line.len() as int) =~= line);
    let (a, b) = lemma_value_bounds(value);
    let end = if a < b { kl + 1 + b } else { kl + 1 };
    assert forall|j: int| end <= j < line.len() implies is_white_space(line[j]) by {
        assert(line[j] == value[j - kl - 1]);
    }
    assert(line[0] == k[0]);
    assert(line[kl] == '=');
    if a < b {
        assert(line[end - 1] == value[b - 1]);
    }
    lemma_trim_bounds(line, 0, end);
    let body = line.subrange(0, end);
    assert forall|j: int| 0 <= j < kl implies body[j] != '=' by {
        assert(body[j] == k[j]);
    }
    lemma_first_index(body, '=', kl);
    assert(body.take(kl) =~= k);
    lemma_trim_bounds(k, 0, kl);
    assert(k.subrange(0, kl) =~= k);
    if a < b {
        let rest = body.skip(kl + 1);
        assert(rest =~= value.subrange(0, b));
        assert forall|j: int| 0 <= j < a implies is_white_space(rest[j]) by {
            assert(rest[j] == value[j]);
        }
        lemma_trim_bounds(rest, a, b);
        assert(rest.subrange(a, b) =~= value.subrange(a, b));
    } else {
        let rest = body.skip(kl + 1);
        assert(rest.len() == 0);
        lemma_trim_bounds(rest, 0, 0);
        assert(rest.subrange(0, 0) =~= value.subrange(a, b));
    }
}

/// Law: text without a line break is a single line.
pub proof fn law_single_line(line: Seq<char>)
    requires
        forall|j: int| 0 <= j < line.len() ==> line[j] != '\n',
    ensures
        config_entries(line) == match line_entry(line) {
            Some(entry) => seq![entry],
            None => Seq::<(SettingKey, Seq<char>)>::empty(),
        },
{
    lemma_first_index(line.skip(0), '\n', line.len() as int);
    assert(line.skip(0) =~= line);
    assert(line.subrange(0, line.len() as int) =~= line);
    match line_entry(line) {
        Some(entry) => {
            assert(seq![entry] + Seq::<(SettingKey, Seq<char>)>::empty() =~= seq![entry]);
        },
        None => {},
    }
}

/// Law: a settings file is read line by line. Joining two files with a line
/// break yields the assignments of the first followed by those of the second.
pub proof fn law_files_read_line_by_line(a: Seq<char>, b: Seq<char>)
    ensures
        config_entries(a + seq!['\n'] + b) == config_entries(a) + config_entries(b),
{
    lemma_entries_concat(a, b, 0);
}

/// Law: everything from the first `#` of a line on is a comment and does not
/// change what the line assigns.
pub proof fn law_comments_are_ignored(code: Seq<char>, comment: Seq<char>)
    requires
        forall|j: int| 0 <= j < code.len() ==> code[j] != '#',
    ensures
        line_entry(code + seq!['#'] + comment) == line_entry(code),
{
    let line = code + seq!['#'] + comment;
    assert(line[code.len() as int] == '#');
    lemma_first_index(line, '#', code.len() as int);
    lemma_first_index(code, '#', code.len() as int);
    assert(line.take(code.len() as int) =~= code);
    assert(code.take(code.len() as int) =~= code);
}

/// Whether `c` has the Unicode `White_Space` property (`char::is_whitespace`).
#[verifier::external_body]
fn char_is_whitespace(c: char) -> (white: bool)
    ensures
        white == is_white_space(c),
{
    c.is_whitespace()
}

/// `c` with ASCII capitals mapped to small letters.
pub open spec fn ascii_lower(c: char) -> char {
    if 'A' <= c <= 'Z' {
        ((c as u32) + 32) as char
    } else {
        c
    }
}

/// `s` with ASCII capitals mapped to small letters (`str::to_ascii_lowercase`);
/// every other character is kept.
#[verifier::external_body]
fn ascii_lowercase(s: &str) -> (lowered: String)
    ensures
        lowered@ == s@.map_values(|c: char| ascii_lower(c)),
{
    s.to_ascii_lowercase()
}

/// `value` with ASCII capitals mapped to small letters.
pub open spec fn lowered(value: Seq<char>) -> Seq<char> {
    value.map_values(|c: char| ascii_lower(c))
}

/// The truth value a settings value spells, ignoring ASCII case.
pub open spec fn bool_word(value: Seq<char>) -> Option<bool> {
    let w = lowered(value);
    if w == "true"@ || w == "yes"@ || w == "1"@ || w == "on"@ {
        Some(true)
    } else if w == "false"@ || w == "no"@ || w == "0"@ || w == "off"@ {
        Some(false)
    } else {
        None
    }
}

/// Law: lowering changes only ASCII capitals, maps each to the small letter
/// 32 code points above it, and never yields a capital.
pub proof fn law_ascii_lower_maps_capitals(c: char)
    ensures
        ascii_lower(c) != c ==> 'A' <= c <= 'Z',
        'A' <= c <= 'Z' ==> ascii_lower(c) as u32 == c as u32 + 32 && 'a' <= ascii_lower(c) <= 'z',
        !('A' <= ascii_lower(c) <= 'Z'),
{
}

proof fn lemma_ascii_lower_idempotent(c: char)
    ensures
        ascii_lower(ascii_lower(c)) == ascii_lower(c),
{
}

/// Law: flag words are read without regard to ASCII case.
pub proof fn law_flag_words_ignore_case(value: Seq<char>)
    ensures
        bool_word(value) == bool_word(lowered(value)),
{
    let w = lowered(value);
    let ww = lowered(w);
    assert forall|j: int| 0 <= j < w.len() implies ww[j] == w[j] by {
        lemma_ascii_lower_idempotent(value[j]);
    }
    assert(ww =~= w);
}

/// Law: the eight flag words and their values: `true`, `yes`, `1` and `on`
/// read as true, `false`, `no`, `0` and `off` as false, in any ASCII case;
/// nothing else reads as a flag.
pub proof fn law_flag_words(value: Seq<char>)
    ensures
        (lowered(value) == "true"@ || lowered(value) == "yes"@ || lowered(value) == "1"@ || lowered(value) == "on"@)
            ==> bool_word(value) == Some(true),
        (lowered(value) == "false"@ || lowered(value) == "no"@ || lowered(value) == "0"@ || lowered(value) == "off"@)
            ==> bool_word(value) == Some(false),
        bool_word(value) is Some ==> (lowered(value) == "true"@ || lowered(value) == "yes"@ || lowered(value) == "1"@
            || lowered(value) == "on"@ || lowered(value) == "false"@ || lowered(value) == "no"@ || lowered(value) == "0"@
            || lowered(value) == "off"@),
{
    reveal_strlit("true");
    reveal_strlit("yes");
    reveal_strlit("1");
    reveal_strlit("on");
    reveal_strlit("false");
    reveal_strlit("no");
    reveal_strlit("0");
    reveal_strlit("off");
    assert("true"@.len() == 4 && "yes"@.len() == 3 && "1"@.len() == 1 && "on"@.len() == 2);
    assert("false"@.len() == 5 && "no"@.len() == 2 && "0"@.len() == 1 && "off"@.len() == 3);
    assert("no"@[0] != "on"@[0]);
    assert("0"@[0] != "1"@[0]);
    assert("off"@[0] != "yes"@[0]);
    let w = lowered(value);
    if w == "no"@ {
        assert(w != "on"@);
    }
    if w == "0"@ {
        assert(w != "1"@);
    }
    if w == "off"@ {
        assert(w != "yes"@);
    }
}

/// The characters of `s`, in order.
fn chars_of(s: &str) -> (chars: Vec<char>)
    ensures
        chars@ == s@,
{
    let mut chars: Vec<char> = Vec::new();
    for c in it: s.chars()
        invariant
            chars@ == it.seq().take(it.index() as int),
    {
        chars.push(c);
    }
    chars
}


/// First position in `lo..hi` holding `c`, or `hi` when there is none.
fn find_from(chars: &Vec<char>, lo: usize, hi: usize, c: char) -> (i: usize)
    requires
        lo <= hi <= chars@.len(),
    ensures
        lo <= i <= hi,
        i - lo == first_index_of(chars@.subrange(lo as int, hi as int), c),
{
    let mut i = lo;
    while i < hi && chars[i] != c
        invariant
            lo <= i <= hi,
            hi <= chars@.len(),
            forall|j: int| lo <= j < i ==> chars@[j] != c,
        decreases hi - i,
    {
        i = i + 1;
    }
    proof {
        lemma_first_index(chars@.subrange(lo as int, hi as int), c, i - lo);
    }
    i
}

/// The part of `lo..hi` left after trimming white space at both ends.
fn trim_range(chars: &Vec<char>, lo: usize, hi: usize) -> (range: (usize, usize))
    requires
        lo <= hi <= chars@.len(),
    ensures
        lo <= range.0 <= range.1 <= hi,
        chars@.subrange(range.0 as int, range.1 as int) == trim(chars@.subrange(lo as int, hi as int)),
{
    let mut a = lo;
    while a < hi && char_is_whitespace(chars[a])
        invariant
            lo <= a <= hi,
            hi <= chars@.len(),
            forall|j: int| lo <= j < a ==> is_white_space(chars@[j]),
        decreases hi - a,
    {
        a = a + 1;
    }
    let mut b = hi;
    while b > a && char_is_whitespace(chars[b - 1])
        invariant
            lo <= a <= b <= hi,
            hi <= chars@.len(),
            forall|j: int| b <= j < hi ==> is_white_space(chars@[j]),
        decreases b - a,
    {
        b = b - 1;
    }
    proof {
        let s = chars@.subrange(lo as int, hi as int);
        lemma_leading(s, a - lo);
        let t = s.skip(a - lo);
        assert(t =~= chars@.subrange(a as int, hi as int));
        lemma_trailing(t, hi - b);
        assert(t.take(t.len() - (hi - b)) =~= chars@.subrange(a as int, b as int));
    }
    (a, b)
}

/// Whether `s` reads exactly `word`.
fn reads_as(s: &str, word: &str) -> (same: bool)
    ensures
        same == (s@ == word@),
{
    String::from_str(s) == String::from_str(word)
}

/// The setting that a key names, if any.
pub fn setting_key(name: &str) -> (key: Option<SettingKey>)
    ensures
        key == key_named(name@),
{
    if reads_as(name, "sensitivity") {
        Some(SettingKey::Sensitivity)
    } else if reads_as(name, "horizontal_fov") {
        Some(SettingKey::HorizontalFov)
    } else if reads_as(name, "session_seconds") {
        Some(SettingKey::SessionSeconds)
    } else if reads_as(name, "target_scale") {
        Some(SettingKey::TargetScale)
    } else if reads_as(name, "projectile_speed") {
        Some(SettingKey::ProjectileSpeed)
    } else if reads_as(name, "movement_speed") {
        Some(SettingKey::MovementSpeed)
    } else if reads_as(name, "fullscreen") {
        Some(SettingKey::Fullscreen)
    } else if reads_as(name, "lead_guide") {
        Some(SettingKey::LeadGuide)
    } else {
        None
    }
}

/// Stores the truth value that `value` spells (`true`, `yes`, `1`, `on`,
/// `false`, `no`, `0` or `off`, in any ASCII case) into `destination`; any
/// other value leaves `destination` unchanged.
pub fn parse_bool(value: &str, destination: &mut bool)
    ensures
        *final(destination) == match bool_word(value@) {
            Some(b) => b,
            None => *old(destination),
        },
{
    let lowered = ascii_lowercase(value);
    let w = lowered.as_str();
    if reads_as(w, "true") || reads_as(w, "yes") || reads_as(w, "1") || reads_as(w, "on") {
        *destination = true;
    } else if reads_as(w, "false") || reads_as(w, "no") || reads_as(w, "0") || reads_as(w, "off") {
        *destination = false;
    }
}

/// Reads the assignments of a settings file, in file order.
pub fn parse_config<'a>(contents: &'a str) -> (entries: Vec<ConfigEntry<'a>>)
    ensures
        entries@.map_values(|e: ConfigEntry<'a>| entry_view(e)) == config_entries(contents@),
{
    let chars = chars_of(contents);
    let ghost text = contents@;
    let len = chars.len();
    let mut entries: Vec<ConfigEntry<'a>> = Vec::new();
    let mut start: usize = 0;
    loop
        invariant_except_break
            entries@.map_values(|e: ConfigEntry<'a>| entry_view(e)) + entries_from(text, start as int)
                == config_entries(text),
        invariant
            chars@ == text,
            text == contents@,
            len == text.len(),
            start <= len,
        ensures
            entries@.map_values(|e: ConfigEntry<'a>| entry_view(e)) == config_entries(text),
        decreases len - start,
    {
        let ghost before = entries@.map_values(|e: ConfigEntry<'a>| entry_view(e));
        let end = find_from(&chars, start, len, '\n');
        let cut = find_from(&chars, start, end, '#');
        let (b0, b1) = trim_range(&chars, start, cut);
        let mut found: Option<ConfigEntry<'a>> = None;
        if b0 < b1 {
            let eq = find_from(&chars, b0, b1, '=');
            if eq < b1 {
                let (k0, k1) = trim_range(&chars, b0, eq);
                let (v0, v1) = trim_range(&chars, eq + 1, b1);
                let name = contents.substring_char(k0, k1);
                match setting_key(name) {
                    Some(key) => {
                        found = Some(ConfigEntry { key, value: contents.substring_char(v0, v1) });
                    },
                    None => {},
                }
            }
        }
        proof {
            let line = text.subrange(start as int, end as int);
            assert(text.skip(start as int) =~= text.subrange(start as int, len as int));
            assert(line.take(cut - start) =~= text.subrange(start as int, cut as int));
            let body = trim(line.take(first_index_of(line, '#') as int));
            assert(body =~= text.subrange(b0 as int, b1 as int));
            if b0 < b1 {
                let eq = b0 + first_index_of(body, '=');
                if eq < b1 {
                    assert(body.take(eq - b0) =~= text.subrange(b0 as int, eq));
                    assert(body.skip(eq - b0 + 1) =~= text.subrange(eq + 1, b1 as int));
                }
            }
            assert(match found {
                Some(e) => line_entry(line) == Some(entry_view(e)),
                None => line_entry(line) is None,
            });
        }
        match found {
            Some(e) => {
                entries.push(e);
            },
            None => {},
        }
        proof {
            let now = entries@.map_values(|e: ConfigEntry<'a>| entry_view(e));
            let line = text.subrange(start as int, end as int);
            let tail = if end < len { entries_from(text, end + 1) } else { Seq::empty() };
            assert(start + first_index_of(text.skip(start as int), '\n') == end);
            match line_entry(line) {
                Some(x) => {
                    assert(now =~= before.push(x));
                    assert(entries_from(text, start as int) == seq![x] + tail);
                    assert(before + (seq![x] + tail) =~= now + tail);
                },
                None => {
                    assert(now =~= before);
                    assert(entries_from(text, start as int) == tail);
                },
            }
            assert(now + tail == config_entries(text));
            if end == len {
                assert(now + tail =~= now);
            }
        }
        if end == len {
            break;
        }
        start = end + 1;
    }
    entries
}


/// The directory a per-user file is placed under.
#[derive(Clone, Copy, Debug, PartialEq, Eq, Structural)]
pub enum PathRoot {
    /// `$XDG_CONFIG_HOME` for settings, `$XDG_DATA_HOME` for results.
    XdgHome,
    /// `$HOME`.
    Home,
}

/// Where a per-user file lives: a root directory and a path below it.
#[derive(Clone, Copy, Debug)]
pub struct PathPlan {
    pub root: PathRoot,
    pub relative: &'static str,
}

/// Whether an environment value can serve as a root directory: it is set
/// and not empty (an empty `$XDG_..._HOME` counts as unset).
pub open spec fn usable_root(value: Option<&[u8]>) -> bool {
    value matches Some(v) && v@.len() > 0
}

fn is_usable_root(value: Option<&[u8]>) -> (usable: bool)
    ensures
        usable == usable_root(value),
{
    match value {
        Some(v) => v.len() > 0,
        None => false,
    }
}

/// Where the settings file lives, given the raw value of `$XDG_CONFIG_HOME`
/// and whether `$HOME` is set: below `$XDG_CONFIG_HOME` when it is set and not
/// empty, else below `$HOME`; `None` when neither applies.
pub fn config_path_plan(xdg_config_home: Option<&[u8]>, home_set: bool) -> (plan: Option<PathPlan>)
    ensures
        usable_root(xdg_config_home) ==> (plan matches Some(p) && p.root == PathRoot::XdgHome && p.relative@ == "arch-aim-trainer/config.conf"@),
        !usable_root(xdg_config_home) && home_set ==> (plan matches Some(p) && p.root == PathRoot::Home && p.relative@ == ".config/arch-aim-trainer/config.conf"@),
        !usable_root(xdg_config_home) && !home_set ==> plan is None,
{
    if is_usable_root(xdg_config_home) {
        Some(PathPlan { root: PathRoot::XdgHome, relative: "arch-aim-trainer/config.conf" })
    } else if home_set {
        Some(PathPlan { root: PathRoot::Home, relative: ".config/arch-aim-trainer/config.conf" })
    } else {
        None
    }
}

/// Where the session history lives, given the raw value of `$XDG_DATA_HOME`
/// and whether `$HOME` is set: below `$XDG_DATA_HOME` when it is set and not
/// empty, else below `$HOME`; `None` when neither applies.
pub fn results_path_plan(xdg_data_home: Option<&[u8]>, home_set: bool) -> (plan: Option<PathPlan>)
    ensures
        usable_root(xdg_data_home) ==> (plan matches Some(p) && p.root == PathRoot::XdgHome && p.relative@ == "arch-aim-trainer/sessions.csv"@),
        !usable_root(xdg_data_home) && home_set ==> (plan matches Some(p) && p.root == PathRoot::Home && p.relative@ == ".local/share/arch-aim-trainer/sessions.csv"@),
        !usable_root(xdg_data_home) && !home_set ==> plan is None,
{
    if is_usable_root(xdg_data_home) {
        Some(PathPlan { root: PathRoot::XdgHome, relative: "arch-aim-trainer/sessions.csv" })
    } else if home_set {
        Some(PathPlan { root: PathRoot::Home, relative: ".local/share/arch-aim-trainer/sessions.csv" })
    } else {
        None
    }
}

} // verus!
