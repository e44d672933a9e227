use vstd::prelude::*;
use vstd::string::*;
use crate::game::Player;
use crate::text::{chars_of, decimal, digit_char, push_decimal};

verus! {

/// The settings of the next game, as kept in the configuration file.
pub struct AppConfig {
    pub width: usize,
    pub height: usize,
    pub swap_rule: bool,
    pub first_player: Player,
    /// Name of the agent that plays Red.
    pub agent1: String,
    /// Name of the agent that plays Blue.
    pub agent2: String,
}

/// The part of a configuration that the configuration file holds.
pub struct Settings {
    pub width: usize,
    pub height: usize,
    pub swap_rule: bool,
    pub first_player: Player,
}

/// The settings used when the file says nothing.
pub open spec fn default_settings() -> Settings {
    Settings { width: 11, height: 11, swap_rule: true, first_player: Player::Red }
}

/// The agent name used when none is chosen.
pub open spec fn default_agent() -> Seq<char> {
    "Human"@
}

/// White space as `char::is_whitespace` has it (the Unicode `White_Space` property).
pub open spec fn is_space(c: char) -> bool {
    ||| '\t' <= c <= '\r'
    ||| c == ' '
    ||| c == '\u{85}'
    ||| c == '\u{A0}'
    ||| c == '\u{1680}'
    ||| '\u{2000}' <= c <= '\u{200A}'
    ||| c == '\u{2028}'
    ||| c == '\u{2029}'
    ||| c == '\u{202F}'
    ||| c == '\u{205F}'
    ||| c == '\u{3000}'
}

/// `s` without its leading white space.
pub open spec fn trim_start(s: Seq<char>) -> Seq<char>
    decreases s.len(),
{
    if s.len() > 0 && is_space(s[0]) {
        trim_start(s.drop_first())
    } else {
        s
    }
}

/// `s` without its trailing white space.
pub open spec fn trim_end(s: Seq<char>) -> Seq<char>
    decreases s.len(),
{
    if s.len() > 0 && is_space(s.last()) {
        trim_end(s.drop_last())
    } else {
        s
    }
}

/// `s` without white space at either end (`str::trim`).
pub open spec fn trim(s: Seq<char>) -> Seq<char> {
    trim_end(trim_start(s))
}

/// The value of a non-empty run of decimal digits.
pub open spec fn digits_value(s: Seq<char>) -> nat
    decreases s.len(),
{
    if s.len() == 0 {
        0
    } else {
        digits_value(s.drop_last()) * 10 + (s.last() as nat - '0' as nat) as nat
    }
}

pub open spec fn is_digit(c: char) -> bool {
    '0' <= c <= '9'
}

/// Every character of `s` is a decimal digit.
pub open spec fn all_digits(s: Seq<char>) -> bool {
    forall|i: int| 0 <= i < s.len() ==> is_digit(#[trigger] s[i])
}

/// `s` without one leading `+`.
pub open spec fn unsigned_part(s: Seq<char>) -> Seq<char> {
    if s.len() > 0 && s[0] == '+' {
        s.drop_first()
    } else {
        s
    }
}

/// `s` read as a `usize` the way `str::parse::<usize>` reads it: an optional `+`, then one or
/// more decimal digits, with a value that fits.
pub open spec fn parse_usize(s: Seq<char>) -> Option<usize> {
    let ds = unsigned_part(s);
    if ds.len() > 0 && all_digits(ds) && digits_value(ds) <= usize::MAX {
        Some(digits_value(ds) as usize)
    } else {
        None
    }
}

/// `s` read as a `bool` the way `str::parse::<bool>` reads it.
pub open spec fn parse_bool(s: Seq<char>) -> Option<bool> {
    if s == "true"@ {
        Some(true)
    } else if s == "false"@ {
        Some(false)
    } else {
        None
    }
}

/// The number of times `c` occurs in `s`.
pub open spec fn count_char(s: Seq<char>, c: char) -> nat
    decreases s.len(),
{
    if s.len() == 0 {
        0
    } else {
        count_char(s.drop_last(), c) + (if s.last() == c { 1nat } else { 0nat })
    }
}

/// The position of the first `c` in `s` (the length of `s` when there is none).
pub open spec fn first_index(s: Seq<char>, c: char) -> int
    decreases s.len(),
{
    if s.len() == 0 {
        0
    } else {
        let f = first_index(s.drop_last(), c);
        if f < s.len() - 1 {
            f
        } else if s.last() == c {
            s.len() - 1
        } else {
            s.len() as int
        }
    }
}

/// The settings after one line `key = value` of the file: a line with exactly one `=` whose
/// trimmed key is known sets that key, when its trimmed value reads as one; other lines change nothing.
pub open spec fn apply_line(st: Settings, line: Seq<char>) -> Settings {
    if count_char(line, '=') == 1 {
        let k = first_index(line, '=');
        let key = trim(line.subrange(0, k));
        let value = trim(line.subrange(k + 1, line.len() as int));
        if key == "width"@ {
            match parse_usize(value) {
                Some(v) => Settings { width: v, ..st },
                None => st,
            }
        } else if key == "height"@ {
            match parse_usize(value) {
                Some(v) => Settings { height: v, ..st },
                None => st,
            }
        } else if key == "swap_rule"@ {
            match parse_bool(value) {
                Some(v) => Settings { swap_rule: v, ..st },
                None => st,
            }
        } else if key == "first_player"@ {
            Settings { first_player: if value == "Blue"@ { Player::Blue } else { Player::Red }, ..st }
        } else {
            st
        }
    } else {
        st
    }
}

/// The settings after the lines `ls`, in order.
pub open spec fn apply_lines(st: Settings, ls: Seq<Seq<char>>) -> Settings
    decreases ls.len(),
{
    if ls.len() == 0 {
        st
    } else {
        apply_line(apply_lines(st, ls.drop_last()), ls.last())
    }
}

/// The pieces of `t` between newlines: one more than there are newlines.
pub open spec fn pieces(t: Seq<char>) -> Seq<Seq<char>>
    decreases t.len(),
{
    if t.len() == 0 {
        seq![Seq::<char>::empty()]
    } else if t.last() == '\n' {
        pieces(t.drop_last()).push(Seq::<char>::empty())
    } else {
        let p = pieces(t.drop_last());
        p.update(p.len() - 1, p.last().push(t.last()))
    }
}

proof fn lemma_pieces_len(t: Seq<char>)
    ensures
        pieces(t).len() >= 1,
    decreases t.len(),
{
    if t.len() > 0 {
        lemma_pieces_len(t.drop_last());
    }
}

/// A piece ended by a newline loses one carriage return at its end.
pub open spec fn strip_cr(p: Seq<char>) -> Seq<char> {
    if p.len() > 0 && p.last() == '\r' {
        p.drop_last()
    } else {
        p
    }
}

/// The lines of `t` as `str::lines` gives them: split at `\n` or `\r\n`, with no empty line after
/// a final line ending.
pub open spec fn lines(t: Seq<char>) -> Seq<Seq<char>> {
    let ps = pieces(t);
    let ended = ps.drop_last().map_values(|p: Seq<char>| strip_cr(p));
    if ps.last().len() > 0 {
        ended.push(ps.last())
    } else {
        ended
    }
}

/// The settings that the text of a configuration file gives.
pub open spec fn settings_from_text(t: Seq<char>) -> Settings {
    apply_lines(default_settings(), lines(t))
}

impl AppConfig {
    /// The part of this configuration that the configuration file holds.
    pub open spec fn settings(&self) -> Settings {
        Settings {
            width: self.width,
            height: self.height,
            swap_rule: self.swap_rule,
            first_player: self.first_player,
        }
    }
}

/// How a `bool` is written (`Display` for `bool`).
pub open spec fn bool_text(b: bool) -> Seq<char> {
    if b {
        "true"@
    } else {
        "false"@
    }
}

/// How a side is written in the configuration file.
pub open spec fn player_name(p: Player) -> Seq<char> {
    match p {
        Player::Red => "Red"@,
        Player::Blue => "Blue"@,
    }
}

/// The text of the configuration file for `st`: one line `key=value` per setting.
pub open spec fn settings_text(st: Settings) -> Seq<char> {
    "width="@ + decimal(st.width as nat) + "\n"@ + "height="@ + decimal(st.height as nat) + "\n"@
        + "swap_rule="@ + bool_text(st.swap_rule) + "\n"@ + "first_player="@ + player_name(
        st.first_player,
    ) + "\n"@
}

fn is_space_char(c: char) -> (b: bool)
    ensures
        b == is_space(c),
{
    ('\t' <= c && c <= '\r') || c == ' ' || c == '\u{85}' || c == '\u{A0}' || c == '\u{1680}'
        || ('\u{2000}' <= c && c <= '\u{200A}') || c == '\u{2028}' || c == '\u{2029}' || c == '\u{202F}'
        || c == '\u{205F}' || c == '\u{3000}'
}

/// The bounds of `v[lo..hi]` without white space at either end.
fn trim_range(v: &Vec<char>, lo: usize, hi: usize) -> (r: (usize, usize))
    requires
        lo <= hi <= v@.len(),
    ensures
        lo <= r.0 <= r.1 <= hi,
        v@.subrange(r.0 as int, r.1 as int) == trim(v@.subrange(lo as int, hi as int)),
{
    let mut a = lo;
    while a < hi && is_space_char(v[a])
        invariant
            lo <= a <= hi <= v@.len(),
            trim_start(v@.subrange(lo as int, hi as int)) == trim_start(v@.subrange(a as int, hi as int)),
        decreases hi - a,
    {
        proof {
            assert(v@.subrange(a as int, hi as int).drop_first() =~= v@.subrange(a + 1, hi as int));
        }
        a = a + 1;
    }
    let mut b = hi;
    while b > a && is_space_char(v[b - 1])
        invariant
            lo <= a <= b <= hi <= v@.len(),
            trim_start(v@.subrange(lo as int, hi as int)) == v@.subrange(a as int, hi as int),
            trim_end(v@.subrange(a as int, hi as int)) == trim_end(v@.subrange(a as int, b as int)),
        decreases b - a,
    {
        proof {
            assert(v@.subrange(a as int, b as int).drop_last() =~= v@.subrange(a as int, b - 1));
        }
        b = b - 1;
    }
    (a, b)
}

/// Whether `v[lo..hi]` spells `word`.
fn spells(v: &Vec<char>, lo: usize, hi: usize, word: &str) -> (b: bool)
    requires
        lo <= hi <= v@.len(),
    ensures
        b == (v@.subrange(lo as int, hi as int) == word@),
{
    let n = word.unicode_len();
    if hi - lo != n {
        return false;
    }
    let mut i: usize = 0;
    while i < n
        invariant
            lo <= hi <= v@.len(),
            hi - lo == n,
            n == word@.len(),
            i <= n,
            forall|k: int| 0 <= k < i ==> v@[lo + k] == word@[k],
        decreases n - i,
    {
        if v[lo + i] != word.get_char(i) {
            proof {
                assert(v@.subrange(lo as int, hi as int)[i as int] != word@[i as int]);
            }
            return false;
        }
        i = i + 1;
    }
    proof {
        assert(v@.subrange(lo as int, hi as int) =~= word@);
    }
    true
}

proof fn lemma_digits_value_grows(s: Seq<char>, k: int)
    requires
        0 <= k <= s.len(),
        all_digits(s),
    ensures
        digits_value(s.subrange(0, k)) <= digits_value(s),
    decreases s.len() - k,
{
    if k < s.len() {
        lemma_digits_value_grows(s, k + 1);
        assert(s.subrange(0, k + 1).drop_last() =~= s.subrange(0, k));
    } else {
        assert(s.subrange(0, k) =~= s);
    }
}

/// `v[lo..hi]` read as a `usize` (see `parse_usize`).
fn parse_usize_range(v: &Vec<char>, lo: usize, hi: usize) -> (r: Option<usize>)
    requires
        lo <= hi <= v@.len(),
    ensures
        r == parse_usize(v@.subrange(lo as int, hi as int)),
{
    let ghost s = v@.subrange(lo as int, hi as int);
    let mut start = lo;
    if start < hi && v[start] == '+' {
        start = start + 1;
    }
    let ghost ds = v@.subrange(start as int, hi as int);
    proof {
        assert(ds =~= unsigned_part(s));
    }
    if start == hi {
        return None;
    }
    let mut acc: usize = 0;
    let mut i = start;
    while i < hi
        invariant
            lo <= start < hi <= v@.len(),
            start <= i <= hi,
            ds == v@.subrange(start as int, hi as int),
            ds == unsigned_part(s),
            s == v@.subrange(lo as int, hi as int),
            acc == digits_value(v@.subrange(start as int, i as int)),
            forall|k: int| start <= k < i ==> is_digit(#[trigger] v@[k]),
        decreases hi - i,
    {
        let c = v[i];
        if !('0' <= c && c <= '9') {
            proof {
                assert(!is_digit(ds[i - start]));
            }
            return None;
        }
        let d = (c as u32 - '0' as u32) as usize;
        proof {
            assert(v@.subrange(start as int, i + 1).drop_last() =~= v@.subrange(start as int, i as int));
        }
        if acc > (usize::MAX - d) / 10 {
            proof {
                assert(digits_value(v@.subrange(start as int, i + 1)) > usize::MAX);
                if all_digits(ds) {
                    lemma_digits_value_grows(ds, i + 1 - start);
                    assert(ds.subrange(0, i + 1 - start) =~= v@.subrange(start as int, i + 1));
                }
            }
            return None;
        }
        acc = acc * 10 + d;
        i = i + 1;
    }
    proof {
        assert(v@.subrange(start as int, i as int) =~= ds);
        assert forall|k: int| 0 <= k < ds.len() implies is_digit(#[trigger] ds[k]) by {
            assert(is_digit(v@[start + k]));
        }
    }
    Some(acc)
}

/// `v[lo..hi]` read as a `bool` (see `parse_bool`).
fn parse_bool_range(v: &Vec<char>, lo: usize, hi: usize) -> (r: Option<bool>)
    requires
        lo <= hi <= v@.len(),
    ensures
        r == parse_bool(v@.subrange(lo as int, hi as int)),
{
    if spells(v, lo, hi, "true") {
        Some(true)
    } else if spells(v, lo, hi, "false") {
        Some(false)
    } else {
        None
    }
}

/// Applies the line `v[lo..hi]` to `cfg` (see `apply_line`).
fn apply_config_line(cfg: &mut AppConfig, v: &Vec<char>, lo: usize, hi: usize)
    requires
        lo <= hi <= v@.len(),
    ensures
        final(cfg).settings() == apply_line(old(cfg).settings(), v@.subrange(lo as int, hi as int)),
        final(cfg).agent1 == old(cfg).agent1,
        final(cfg).agent2 == old(cfg).agent2,
{
    let ghost line = v@.subrange(lo as int, hi as int);
    let mut count: usize = 0;
    let mut k: usize = hi;
    let mut i: usize = lo;
    while i < hi
        invariant
            lo <= i <= hi <= v@.len(),
            line == v@.subrange(lo as int, hi as int),
            count <= i - lo,
            count == count_char(v@.subrange(lo as int, i as int), '='),
            count == 0 ==> first_index(v@.subrange(lo as int, i as int), '=') == i - lo,
            count > 0 ==> first_index(v@.subrange(lo as int, i as int), '=') == k - lo && lo <= k < i
                && v@[k as int] == '=',
        decreases hi - i,
    {
        proof {
            assert(v@.subrange(lo as int, i + 1).drop_last() =~= v@.subrange(lo as int, i as int));
        }
        if v[i] == '=' {
            if count == 0 {
                k = i;
            }
            count = count + 1;
        }
        i = i + 1;
    }
    proof {
        assert(v@.subrange(lo as int, i as int) =~= line);
    }
    if count != 1 {
        return;
    }
    let (ka, kb) = trim_range(v, lo, k);
    let (va, vb) = trim_range(v, k + 1, hi);
    proof {
        assert(line.subrange(0, k - lo) =~= v@.subrange(lo as int, k as int));
        assert(line.subrange(k - lo + 1, line.len() as int) =~= v@.subrange(k + 1, hi as int));
    }
    if spells(v, ka, kb, "width") {
        if let Some(n) = parse_usize_range(v, va, vb) {
            cfg.width = n;
        }
    } else if spells(v, ka, kb, "height") {
        if let Some(n) = parse_usize_range(v, va, vb) {
            cfg.height = n;
        }
    } else if spells(v, ka, kb, "swap_rule") {
        if let Some(b) = parse_bool_range(v, va, vb) {
            cfg.swap_rule = b;
        }
    } else if spells(v, ka, kb, "first_player") {
        if spells(v, va, vb, "Blue") {
            cfg.first_player = Player::Blue;
        } else {
            cfg.first_player = Player::Red;
        }
    }
}

impl AppConfig {
    /// The configuration that the text of a configuration file gives: the defaults, changed by
    /// each line `key=value` in turn (see `settings_from_text`).
    pub fn from_text(text: &str) -> (cfg: Self)
        ensures
            cfg.settings() == settings_from_text(text@),
            cfg.agent1@ == default_agent(),
            cfg.agent2@ == default_agent(),
    {
        let v = chars_of(text);
        let mut cfg = AppConfig::default();
        let mut start: usize = 0;
        let mut i: usize = 0;
        while i < v.len()
            invariant
                v@ == text@,
                start <= i <= v@.len(),
                pieces(v@.subrange(0, i as int)).last() == v@.subrange(start as int, i as int),
                cfg.settings() == apply_lines(
                    default_settings(),
                    pieces(v@.subrange(0, i as int)).drop_last().map_values(|p: Seq<char>| strip_cr(p)),
                ),
                cfg.agent1@ == default_agent(),
                cfg.agent2@ == default_agent(),
            decreases v@.len() - i,
        {
            let ghost before = pieces(v@.subrange(0, i as int));
            proof {
                lemma_pieces_len(v@.subrange(0, i as int));
                assert(v@.subrange(0, i + 1).drop_last() =~= v@.subrange(0, i as int));
            }
            if v[i] == '\n' {
                let end = if i > start && v[i - 1] == '\r' { i - 1 } else { i };
                proof {
                    assert(v@.subrange(start as int, end as int) =~= strip_cr(v@.subrange(start as int, i as int)));
                }
                apply_config_line(&mut cfg, &v, start, end);
                proof {
                    let after = pieces(v@.subrange(0, i + 1));
                    assert(after == before.push(Seq::<char>::empty()));
                    assert(after.drop_last() =~= before);
                    let f = |p: Seq<char>| strip_cr(p);
                    assert(before.map_values(f).drop_last() =~= before.drop_last().map_values(f));
                    assert(before.map_values(f).last() == strip_cr(before.last()));
                }
                start = i + 1;
                proof {
                    assert(v@.subrange(start as int, i + 1) =~= Seq::<char>::empty());
                }
            } else {
                proof {
                    let after = pieces(v@.subrange(0, i + 1));
                    assert(after.drop_last() =~= before.drop_last());
                    assert(v@.subrange(start as int, i + 1) =~= v@.subrange(start as int, i as int).push(v@[i as int]));
                }
            }
            i = i + 1;
        }
        proof {
            assert(v@.subrange(0, i as int) =~= text@);
            lemma_pieces_len(text@);
        }
        if start < v.len() {
            apply_config_line(&mut cfg, &v, start, v.len());
        }
        proof {
            let ps = pieces(text@);
            let f = |p: Seq<char>| strip_cr(p);
            let ended = ps.drop_last().map_values(f);
            if ps.last().len() > 0 {
                assert(lines(text@) == ended.push(ps.last()));
                assert(lines(text@).drop_last() =~= ended);
            }
        }
        cfg
    }
}

impl Default for AppConfig {
    /// An 11 by 11 board with the swap rule, Red first, both sides played by `"Human"`.
    fn default() -> (cfg: Self)
        ensures
            cfg.settings() == default_settings(),
            cfg.agent1@ == default_agent(),
            cfg.agent2@ == default_agent(),
    {
        AppConfig {
            width: 11,
            height: 11,
            swap_rule: true,
            first_player: Player::Red,
            agent1: String::from_str("Human"),
            agent2: String::from_str("Human"),
        }
    }
}

impl AppConfig {
    /// The text of the configuration file for this configuration (see `settings_text`).
    pub fn to_text(&self) -> (s: String)
        ensures
            s@ == settings_text(self.settings()),
    {
        let mut s = String::from_str("width=");
        push_decimal(&mut s, self.width);
        s.append("\n");
        s.append("height=");
        push_decimal(&mut s, self.height);
        s.append("\n");
        s.append("swap_rule=");
        if self.swap_rule {
            s.append("true");
        } else {
            s.append("false");
        }
        s.append("\n");
        s.append("first_player=");
        match self.first_player {
            Player::Red => s.append("Red"),
            Player::Blue => s.append("Blue"),
        }
        s.append("\n");
        s
    }
}

proof fn lemma_count_concat(a: Seq<char>, b: Seq<char>, c: char)
    ensures
        count_char(a + b, c) == count_char(a, c) + count_char(b, c),
    decreases b.len(),
{
    if b.len() > 0 {
        lemma_count_concat(a, b.drop_last(), c);
        assert((a + b).drop_last() =~= a + b.drop_last());
    } else {
        assert(a + b =~= a);
    }
}

proof fn lemma_first_index_absent(a: Seq<char>, c: char)
    requires
        count_char(a, c) == 0,
    ensures
        first_index(a, c) == a.len(),
    decreases a.len(),
{
    if a.len() > 0 {
        lemma_first_index_absent(a.drop_last(), c);
    }
}

proof fn lemma_first_index_concat(a: Seq<char>, b: Seq<char>, c: char)
    requires
        first_index(a, c) < a.len(),
    ensures
        first_index(a + b, c) == first_index(a, c),
    decreases b.len(),
{
    if b.len() > 0 {
        lemma_first_index_concat(a, b.drop_last(), c);
        assert((a + b).drop_last() =~= a + b.drop_last());
    } else {
        assert(a + b =~= a);
    }
}

/// A line made of a key, `=` and a value, neither holding `=`, splits back into them.
proof fn lemma_key_value_line(key: Seq<char>, value: Seq<char>)
    requires
        count_char(key, '=') == 0,
        count_char(value, '=') == 0,
    ensures
        count_char(key.push('=') + value, '=') == 1,
        first_index(key.push('=') + value, '=') == key.len(),
        (key.push('=') + value).subrange(0, key.len() as int) == key,
        (key.push('=') + value).subrange(key.len() as int + 1, (key.push('=') + value).len() as int) == value,
{
    let line = key.push('=') + value;
    lemma_count_concat(key.push('='), value, '=');
    assert(key.push('=').drop_last() =~= key);
    lemma_first_index_absent(key, '=');
    lemma_first_index_concat(key.push('='), value, '=');
    assert(line.subrange(0, key.len() as int) =~= key);
    assert(line.subrange(key.len() as int + 1, line.len() as int) =~= value);
}

/// Appending text without newlines to `t` lengthens the last piece of `t`.
proof fn lemma_pieces_extend(t: Seq<char>, l: Seq<char>)
    requires
        count_char(l, '\n') == 0,
    ensures
        pieces(t + l) == pieces(t).drop_last().push(pieces(t).last() + l),
    decreases l.len(),
{
    lemma_pieces_len(t);
    if l.len() == 0 {
        assert(t + l =~= t);
        assert(pieces(t).last() + l =~= pieces(t).last());
        assert(pieces(t).drop_last().push(pieces(t).last()) =~= pieces(t));
    } else {
        lemma_pieces_extend(t, l.drop_last());
        assert((t + l).drop_last() =~= t + l.drop_last());
        assert((pieces(t).last() + l.drop_last()).push(l.last()) =~= pieces(t).last() + l);
        let p = pieces(t + l.drop_last());
        assert(p.update(p.len() - 1, p.last().push(l.last())) =~= pieces(t).drop_last().push(
            pieces(t).last() + l,
        ));
    }
}

/// Appending a line and a newline to `t` closes the last piece of `t` and opens an empty one.
proof fn lemma_pieces_line(t: Seq<char>, l: Seq<char>)
    requires
        count_char(l, '\n') == 0,
    ensures
        pieces(t + l + "\n"@) == pieces(t).drop_last().push(pieces(t).last() + l).push(Seq::<char>::empty()),
{
    reveal_strlit("\n");
    lemma_pieces_extend(t, l);
    assert(t + l + "\n"@ =~= (t + l).push('\n'));
    assert((t + l).push('\n').drop_last() =~= t + l);
}

proof fn lemma_digit_char(d: nat)
    requires
        d < 10,
    ensures
        digit_char(d) as nat == '0' as nat + d,
        is_digit(digit_char(d)),
{
}

proof fn lemma_count_absent(s: Seq<char>, c: char)
    requires
        forall|i: int| 0 <= i < s.len() ==> s[i] != c,
    ensures
        count_char(s, c) == 0,
    decreases s.len(),
{
    if s.len() > 0 {
        lemma_count_absent(s.drop_last(), c);
    }
}

proof fn lemma_decimal_digits(n: nat)
    ensures
        decimal(n).len() > 0,
        all_digits(decimal(n)),
        digits_value(decimal(n)) == n,
    decreases n,
{
    lemma_digit_char(n % 10);
    let d = decimal(n);
    if n < 10 {
        assert(d.drop_last() =~= Seq::<char>::empty());
        assert(digits_value(d) == digits_value(d.drop_last()) * 10 + (d.last() as nat - '0' as nat) as nat);
    }
    if n >= 10 {
        lemma_decimal_digits(n / 10);
        assert(decimal(n).drop_last() =~= decimal(n / 10));
        assert(digits_value(d) == digits_value(d.drop_last()) * 10 + (d.last() as nat - '0' as nat) as nat);
        assert(n == (n / 10) * 10 + n % 10);
        let d = decimal(n);
        assert forall|i: int| 0 <= i < d.len() implies is_digit(#[trigger] d[i]) by {
            if i < d.len() - 1 {
                assert(d[i] == decimal(n / 10)[i]);
            }
        }
    }
}

proof fn lemma_no_char_in_digits(s: Seq<char>, c: char)
    requires
        all_digits(s),
        !is_digit(c),
    ensures
        count_char(s, c) == 0,
    decreases s.len(),
{
    if s.len() > 0 {
        assert(all_digits(s.drop_last()));
        lemma_no_char_in_digits(s.drop_last(), c);
        assert(is_digit(s[s.len() - 1]));
    }
}

/// Text with no white space at its ends is its own trim.
proof fn lemma_trim_plain(s: Seq<char>)
    requires
        s.len() > 0,
        !is_space(s[0]),
        !is_space(s.last()),
    ensures
        trim(s) == s,
{
}

proof fn lemma_settings_line(st: Settings, key: Seq<char>, value: Seq<char>)
    requires
        count_char(key, '=') == 0,
        count_char(value, '=') == 0,
        key.len() > 0 && !is_space(key[0]) && !is_space(key.last()),
        value.len() > 0 && !is_space(value[0]) && !is_space(value.last()),
    ensures
        apply_line(st, key.push('=') + value) == (if key == "width"@ {
            match parse_usize(value) {
                Some(v) => Settings { width: v, ..st },
                None => st,
            }
        } else if key == "height"@ {
            match parse_usize(value) {
                Some(v) => Settings { height: v, ..st },
                None => st,
            }
        } else if key == "swap_rule"@ {
            match parse_bool(value) {
                Some(v) => Settings { swap_rule: v, ..st },
                None => st,
            }
        } else if key == "first_player"@ {
            Settings { first_player: if value == "Blue"@ { Player::Blue } else { Player::Red }, ..st }
        } else {
            st
        }),
{
    lemma_key_value_line(key, value);
    lemma_trim_plain(key);
    lemma_trim_plain(value);
}

/// Reading back the text written for some settings gives those settings.
pub proof fn lemma_settings_text_roundtrip(st: Settings)
    ensures
        settings_from_text(settings_text(st)) == st,
{
    reveal_strlit("width=");
    reveal_strlit("height=");
    reveal_strlit("swap_rule=");
    reveal_strlit("first_player=");
    reveal_strlit("width");
    reveal_strlit("height");
    reveal_strlit("swap_rule");
    reveal_strlit("first_player");
    reveal_strlit("true");
    reveal_strlit("false");
    reveal_strlit("Red");
    reveal_strlit("Blue");
    reveal_strlit("\n");
    let w = decimal(st.width as nat);
    let h = decimal(st.height as nat);
    let b = bool_text(st.swap_rule);
    let p = player_name(st.first_player);
    lemma_decimal_digits(st.width as nat);
    lemma_decimal_digits(st.height as nat);
    lemma_no_char_in_digits(w, '=');
    lemma_no_char_in_digits(h, '=');
    lemma_no_char_in_digits(w, '\n');
    lemma_no_char_in_digits(h, '\n');
    assert(is_digit(w[0]) && is_digit(w.last()) && is_digit(h[0]) && is_digit(h.last()));
    let kw = "width"@;
    let kh = "height"@;
    let ks = "swap_rule"@;
    let kf = "first_player"@;
    assert("width="@ =~= kw.push('='));
    assert("height="@ =~= kh.push('='));
    assert("swap_rule="@ =~= ks.push('='));
    assert("first_player="@ =~= kf.push('='));
    let l1 = kw.push('=') + w;
    let l2 = kh.push('=') + h;
    let l3 = ks.push('=') + b;
    let l4 = kf.push('=') + p;
    let n = "\n"@;
    let e = Seq::<char>::empty();
    // no newline inside the lines
    lemma_count_concat(kw.push('='), w, '\n');
    lemma_count_concat(kh.push('='), h, '\n');
    lemma_count_concat(ks.push('='), b, '\n');
    lemma_count_concat(kf.push('='), p, '\n');
    lemma_count_absent(kw.push('='), '\n');
    lemma_count_absent(kh.push('='), '\n');
    lemma_count_absent(ks.push('='), '\n');
    lemma_count_absent(kf.push('='), '\n');
    lemma_count_absent(b, '\n');
    lemma_count_absent(p, '\n');
    // the pieces of the text
    let t0 = e;
    let t1 = t0 + l1 + n;
    let t2 = t1 + l2 + n;
    let t3 = t2 + l3 + n;
    let t4 = t3 + l4 + n;
    assert(settings_text(st) =~= t4);
    assert(pieces(t0) =~= seq![e]);
    lemma_pieces_line(t0, l1);
    assert(pieces(t1) =~= seq![l1, e]);
    lemma_pieces_line(t1, l2);
    assert(pieces(t2) =~= seq![l1, l2, e]);
    lemma_pieces_line(t2, l3);
    assert(pieces(t3) =~= seq![l1, l2, l3, e]);
    lemma_pieces_line(t3, l4);
    assert(pieces(t4) =~= seq![l1, l2, l3, l4, e]);
    // no line ends with a carriage return
    assert(strip_cr(l1) == l1);
    assert(strip_cr(l2) == l2);
    assert(strip_cr(l3) == l3);
    assert(strip_cr(l4) == l4);
    assert(lines(t4) =~= seq![l1, l2, l3, l4]);
    let ls = seq![l1, l2, l3, l4];
    assert(ls.drop_last() =~= seq![l1, l2, l3]);
    assert(seq![l1, l2, l3].drop_last() =~= seq![l1, l2]);
    assert(seq![l1, l2].drop_last() =~= seq![l1]);
    assert(seq![l1].drop_last() =~= Seq::<Seq<char>>::empty());
    // each line sets its key
    lemma_count_concat(Seq::<char>::empty(), Seq::<char>::empty(), '=');
    lemma_count_absent(kw, '=');
    lemma_count_absent(kh, '=');
    lemma_count_absent(ks, '=');
    lemma_count_absent(kf, '=');
    lemma_count_absent(b, '=');
    lemma_count_absent(p, '=');
    let s0 = default_settings();
    lemma_settings_line(s0, kw, w);
    let s1 = apply_line(s0, l1);
    assert(s1.width == st.width);
    lemma_settings_line(s1, kh, h);
    let s2 = apply_line(s1, l2);
    assert(s2.height == st.height && s2.width == st.width);
    lemma_settings_line(s2, ks, b);
    let s3 = apply_line(s2, l3);
    lemma_settings_line(s3, kf, p);
    let s4 = apply_line(s3, l4);
    assert(s4 == st);
    assert(apply_lines(s0, Seq::<Seq<char>>::empty()) == s0);
    assert(seq![l1].last() == l1);
    assert(apply_lines(s0, seq![l1]) == apply_line(apply_lines(s0, seq![l1].drop_last()), l1));
    assert(apply_lines(s0, seq![l1]) == s1);
    assert(apply_lines(s0, seq![l1, l2]) == s2);
    assert(apply_lines(s0, seq![l1, l2, l3]) == s3);
    assert(apply_lines(s0, ls) == s4);
}

} // verus!
