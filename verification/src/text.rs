use vstd::prelude::*;

verus! {

/// The Unicode `White_Space` property, the test of `char::is_whitespace`
/// and of `\s` in a regular expression.
pub open spec fn is_white_space(c: char) -> bool {
    let u = c as u32;
    ||| 0x09 <= u <= 0x0d
    ||| u == 0x20
    ||| u == 0x85
    ||| u == 0xa0
    ||| u == 0x1680
    ||| 0x2000 <= u <= 0x200a
    ||| u == 0x2028
    ||| u == 0x2029
    ||| u == 0x202f
    ||| u == 0x205f
    ||| u == 0x3000
}

/// Whether `c` is white space.
pub fn is_whitespace_char(c: char) -> (r: bool)
    ensures
        r == is_white_space(c),
{
    let u = c as u32;
    (0x09 <= u && u <= 0x0d) || u == 0x20 || u == 0x85 || u == 0xa0 || u == 0x1680 || (0x2000
        <= u && u <= 0x200a) || u == 0x2028 || u == 0x2029 || u == 0x202f || u == 0x205f || u
        == 0x3000
}

/// `s` with every white-space character removed.
pub open spec fn strip_ws(s: Seq<char>) -> Seq<char>
    decreases s.len(),
{
    if s.len() == 0 {
        s
    } else if is_white_space(s.last()) {
        strip_ws(s.drop_last())
    } else {
        strip_ws(s.drop_last()).push(s.last())
    }
}

/// The characters of `text`.
pub fn chars_of(text: &str) -> (r: Vec<char>)
    ensures
        r@ == text@,
{
    let n = text.unicode_len();
    let mut out: Vec<char> = Vec::new();
    let mut i: usize = 0;
    while i < n
        invariant
            i <= n,
            n == text@.len(),
            out@ == text@.take(i as int),
        decreases n - i,
    {
        let c = text.get_char(i);
        out.push(c);
        proof {
            assert(out@ =~= text@.take(i + 1));
        }
        i = i + 1;
    }
    proof {
        assert(text@.take(n as int) =~= text@);
    }
    out
}

/// The characters of `text` that are not white space, in order.
pub fn strip_whitespace(text: &str) -> (r: Vec<char>)
    ensures
        r@ == strip_ws(text@),
{
    let all = chars_of(text);
    let mut out: Vec<char> = Vec::new();
    let mut i: usize = 0;
    while i < all.len()
        invariant
            i <= all.len(),
            all@ == text@,
            out@ == strip_ws(text@.take(i as int)),
        decreases all.len() - i,
    {
        let c = all[i];
        proof {
            assert(text@.take(i + 1).drop_last() =~= text@.take(i as int));
        }
        if !is_whitespace_char(c) {
            out.push(c);
        }
        i = i + 1;
    }
    proof {
        assert(text@.take(all.len() as int) =~= text@);
    }
    out
}

/// Copies characters into a `String`: calls std's `FromIterator<&char>`
/// for `String`, which appends the characters in order.
#[verifier::external_body]
pub(crate) fn string_from_chars(chars: &[char]) -> (r: String)
    ensures
        r@ == chars@,
{
    chars.iter().collect()
}

/// Whether `s[start..start + w.len()]` is `w`.
fn matches_at(s: &Vec<char>, start: usize, w: &str) -> (r: bool)
    requires
        start <= s@.len(),
    ensures
        r == (start + w@.len() <= s@.len() && s@.subrange(
            start as int,
            start + w@.len(),
        ) == w@),
{
    let n = w.unicode_len();
    if n > s.len() - start {
        return false;
    }
    let sl = s.len();
    let mut i: usize = 0;
    while i < n
        invariant
            i <= n,
            n == w@.len(),
            sl == s@.len(),
            start + n <= s@.len(),
            forall|j: int| 0 <= j < i ==> s@[start + j] == w@[j],
        decreases n - i,
    {
        if s[start + i] != w.get_char(i) {
            proof {
                assert(s@.subrange(start as int, start + w@.len())[i as int] != w@[i as int]);
            }
            return false;
        }
        i = i + 1;
    }
    proof {
        assert(s@.subrange(start as int, start + w@.len()) =~= w@);
    }
    true
}

// ---------------------------------------------------------------------------
// The emoji command: `$emoji+=X` registers the character X, `$emoji-=X`
// unregisters it. White space anywhere in the message is ignored.
// ---------------------------------------------------------------------------

/// A request to register (`add`) or unregister an emoji code point.
#[derive(Clone, Copy, Debug, PartialEq, Eq, Structural)]
pub struct EmojiCommand {
    pub add: bool,
    pub code: u32,
}

/// The command that the white-space-free text `s` states, if any: it must
/// be exactly `$emoji`, a sign `+` or `-`, `=`, and one character other
/// than a line feed (the pattern `^\$emoji([+-])=(.)$`).
pub open spec fn spec_emoji_command(s: Seq<char>) -> Option<EmojiCommand> {
    if s.len() == 9 && s.take(6) == seq!['$', 'e', 'm', 'o', 'j', 'i'] && (s[6] == '+' || s[6]
        == '-') && s[7] == '=' && s[8] != '\n' {
        Some(EmojiCommand { add: s[6] == '+', code: s[8] as u32 })
    } else {
        None
    }
}

/// Reads an emoji command from an administrator's message.
pub fn parse_emoji_command(text: &str) -> (r: Option<EmojiCommand>)
    ensures
        r == spec_emoji_command(strip_ws(text@)),
{
    let s = strip_whitespace(text);
    if s.len() == 9 && matches_at(&s, 0, "$emoji") && (s[6] == '+' || s[6] == '-') && s[7] == '='
        && s[8] != '\n' {
        proof {
            reveal_strlit("$emoji");
            assert("$emoji"@ =~= seq!['$', 'e', 'm', 'o', 'j', 'i']);
            assert(s@.subrange(0, 6) =~= s@.take(6));
        }
        Some(EmojiCommand { add: s[6] == '+', code: s[8] as u32 })
    } else {
        proof {
            reveal_strlit("$emoji");
            assert("$emoji"@ =~= seq!['$', 'e', 'm', 'o', 'j', 'i']);
            if s@.len() == 9 {
                assert(s@.subrange(0, 6) =~= s@.take(6));
            }
        }
        None
    }
}

// ---------------------------------------------------------------------------
// The switch commands: `$<group>+=<first>-<second>` switches a feature on
// for a group, `$<group>-=<first>-<second>` switches it off; `_` may stand
// for the `-` between the two words. White space is ignored.
// ---------------------------------------------------------------------------

/// A request to switch a feature on (`add`) or off for a group.
pub struct ToggleCommand {
    pub add: bool,
    pub group: String,
}

/// The group switch that the white-space-free text `s` states for the
/// feature named `first`-`second`, if any, as `(add, group)`. This is the
/// pattern `^\$(.*)([+-])=first[-_]second$`: the text starts with `$`,
/// ends with `=`, `first`, `-` or `_`, `second`, and the sign just before
/// `=` is `+` or `-`; the group is everything between `$` and the sign, and
/// holds no line feed.
pub open spec fn spec_toggle_command(s: Seq<char>, first: Seq<char>, second: Seq<char>) -> Option<
    (bool, Seq<char>),
> {
    let tail = first.len() + 1 + second.len();
    let n = s.len();
    if n >= tail + 3 && s[0] == '$' && (s[n - tail - 2] == '+' || s[n - tail - 2] == '-') && s[n
        - tail - 1] == '=' && s.subrange(n - tail, n - tail + first.len()) == first && (s[n
        - second.len() - 1] == '-' || s[n - second.len() - 1] == '_') && s.subrange(
        n - second.len(),
        n as int,
    ) == second && !s.subrange(1, n - tail - 2).contains('\n') {
        Some((s[n - tail - 2] == '+', s.subrange(1, n - tail - 2)))
    } else {
        None
    }
}

/// Whether `c` occurs in `s[from..to]`.
fn contains_char(s: &Vec<char>, from: usize, to: usize, c: char) -> (r: bool)
    requires
        from <= to <= s@.len(),
    ensures
        r == s@.subrange(from as int, to as int).contains(c),
{
    let mut i = from;
    while i < to
        invariant
            from <= i <= to,
            to <= s@.len(),
            forall|j: int| from <= j < i ==> s@[j] != c,
        decreases to - i,
    {
        if s[i] == c {
            proof {
                assert(s@.subrange(from as int, to as int)[i - from] == c);
            }
            return true;
        }
        i = i + 1;
    }
    proof {
        assert forall|j: int| 0 <= j < to - from implies s@.subrange(from as int, to as int)[j] != c by {
            assert(s@.subrange(from as int, to as int)[j] == s@[from + j]);
        }
    }
    false
}

/// Reads a group switch for the feature `first`-`second`.
pub fn parse_toggle_command(text: &str, first: &str, second: &str) -> (r: Option<ToggleCommand>)
    ensures
        r is Some <==> spec_toggle_command(strip_ws(text@), first@, second@) is Some,
        r matches Some(c) ==> spec_toggle_command(strip_ws(text@), first@, second@) == Some(
            (c.add, c.group@),
        ),
{
    let s = strip_whitespace(text);
    let n = s.len();
    let lf = first.unicode_len();
    let ls = second.unicode_len();
    if lf >= n || ls >= n - lf || n - lf - ls < 4 {
        return None;
    }
    let tail = lf + 1 + ls;
    let sign = s[n - tail - 2];
    if s[0] == '$' && (sign == '+' || sign == '-') && s[n - tail - 1] == '=' && matches_at(
        &s,
        n - tail,
        first,
    ) && (s[n - ls - 1] == '-' || s[n - ls - 1] == '_') && matches_at(&s, n - ls, second)
        && !contains_char(&s, 1, n - tail - 2, '\n') {
        let group = string_from_chars(&s.as_slice()[1..n - tail - 2]);
        proof {
            assert(s@.subrange(1, n - tail - 2) == group@);
        }
        Some(ToggleCommand { add: sign == '+', group })
    } else {
        None
    }
}

/// Reads a group switch for the image symmetry feature
/// (`$<group>+=image-symmetry`, `$<group>-=image_symmetry`, ...).
pub fn parse_symmetry_toggle(text: &str) -> (r: Option<ToggleCommand>)
    ensures
        r is Some <==> spec_toggle_command(strip_ws(text@), "image"@, "symmetry"@) is Some,
        r matches Some(c) ==> spec_toggle_command(strip_ws(text@), "image"@, "symmetry"@) == Some(
            (c.add, c.group@),
        ),
{
    parse_toggle_command(text, "image", "symmetry")
}

/// Reads a group switch for the message reaction feature
/// (`$<group>+=message-reaction`, `$<group>-=message_reaction`, ...).
pub fn parse_reaction_toggle(text: &str) -> (r: Option<ToggleCommand>)
    ensures
        r is Some <==> spec_toggle_command(strip_ws(text@), "message"@, "reaction"@) is Some,
        r matches Some(c) ==> spec_toggle_command(strip_ws(text@), "message"@, "reaction"@)
            == Some((c.add, c.group@)),
{
    parse_toggle_command(text, "message", "reaction")
}

// ---------------------------------------------------------------------------
// The symmetry command: `对称 <direction>`, with white space allowed around
// the words and required between them.
// ---------------------------------------------------------------------------

/// The first position at or after `i` that is not white space, or the end.
pub open spec fn skip_ws(s: Seq<char>, i: int) -> int
    decreases s.len() - i,
{
    if i < 0 || i >= s.len() || !is_white_space(s[i]) {
        i
    } else {
        skip_ws(s, i + 1)
    }
}

/// The first position at or after `i` that is white space, or the end.
pub open spec fn skip_non_ws(s: Seq<char>, i: int) -> int
    decreases s.len() - i,
{
    if i < 0 || i >= s.len() || is_white_space(s[i]) {
        i
    } else {
        skip_non_ws(s, i + 1)
    }
}

/// The direction word of a symmetry command in `s`, if `s` is one: white
/// space, "对称", at least one white space, a word without white space,
/// and white space to the end (the pattern `^\s*对称\s+(\S+)\s*$`).
pub open spec fn spec_symmetry_direction(s: Seq<char>) -> Option<Seq<char>> {
    let i = skip_ws(s, 0);
    let j = i + 2;
    let k = skip_ws(s, j);
    let e = skip_non_ws(s, k);
    if j <= s.len() && s[i] == '对' && s[i + 1] == '称' && k > j && k < s.len() && skip_ws(s, e)
        == s.len() {
        Some(s.subrange(k, e))
    } else {
        None
    }
}

proof fn lemma_skip_ws_bounds(s: Seq<char>, i: int)
    requires
        0 <= i <= s.len(),
    ensures
        i <= skip_ws(s, i) <= s.len(),
        forall|j: int| i <= j < skip_ws(s, i) ==> is_white_space(#[trigger] s[j]),
        skip_ws(s, i) < s.len() ==> !is_white_space(s[skip_ws(s, i)]),
    decreases s.len() - i,
{
    if i < s.len() && is_white_space(s[i]) {
        lemma_skip_ws_bounds(s, i + 1);
    }
}

proof fn lemma_skip_non_ws_bounds(s: Seq<char>, i: int)
    requires
        0 <= i <= s.len(),
    ensures
        i <= skip_non_ws(s, i) <= s.len(),
        forall|j: int| i <= j < skip_non_ws(s, i) ==> !is_white_space(#[trigger] s[j]),
    decreases s.len() - i,
{
    if i < s.len() && !is_white_space(s[i]) {
        lemma_skip_non_ws_bounds(s, i + 1);
    }
}

/// Advances from `i` over white space.
fn skip_ws_exec(s: &Vec<char>, i: usize) -> (r: usize)
    requires
        i <= s@.len(),
    ensures
        r == skip_ws(s@, i as int),
{
    let mut j = i;
    while j < s.len() && is_whitespace_char(s[j])
        invariant
            i <= j <= s@.len(),
            skip_ws(s@, j as int) == skip_ws(s@, i as int),
        decreases s@.len() - j,
    {
        j = j + 1;
    }
    j
}

/// Advances from `i` over characters that are not white space.
fn skip_non_ws_exec(s: &Vec<char>, i: usize) -> (r: usize)
    requires
        i <= s@.len(),
    ensures
        r == skip_non_ws(s@, i as int),
{
    let mut j = i;
    while j < s.len() && !is_whitespace_char(s[j])
        invariant
            i <= j <= s@.len(),
            skip_non_ws(s@, j as int) == skip_non_ws(s@, i as int),
        decreases s@.len() - j,
    {
        j = j + 1;
    }
    j
}

/// Reads the direction word of a symmetry command from a group message.
pub fn parse_symmetry_command(text: &str) -> (r: Option<String>)
    ensures
        r is Some <==> spec_symmetry_direction(text@) is Some,
        r matches Some(d) ==> spec_symmetry_direction(text@) == Some(d@),
{
    let s = chars_of(text);
    proof {
        lemma_skip_ws_bounds(s@, 0);
    }
    let i = skip_ws_exec(&s, 0);
    if i >= s.len() || s.len() - i < 2 || s[i] != '对' || s[i + 1] != '称' {
        return None;
    }
    let j = i + 2;
    proof {
        lemma_skip_ws_bounds(s@, j as int);
    }
    let k = skip_ws_exec(&s, j);
    if k <= j || k >= s.len() {
        return None;
    }
    proof {
        lemma_skip_non_ws_bounds(s@, k as int);
    }
    let e = skip_non_ws_exec(&s, k);
    proof {
        lemma_skip_ws_bounds(s@, e as int);
    }
    if skip_ws_exec(&s, e) != s.len() {
        return None;
    }
    let word = string_from_chars(&s.as_slice()[k..e]);
    proof {
        assert(word@ == s@.subrange(k as int, e as int));
    }
    Some(word)
}

/// No character of `s` is white space.
pub open spec fn free_of_ws(s: Seq<char>) -> bool {
    forall|i: int| 0 <= i < s.len() ==> !is_white_space(#[trigger] s[i])
}

proof fn lemma_strip_ws_keeps(s: Seq<char>)
    requires
        free_of_ws(s),
    ensures
        strip_ws(s) == s,
    decreases s.len(),
{
    if s.len() > 0 {
        lemma_strip_ws_keeps(s.drop_last());
        assert(s.drop_last().push(s.last()) =~= s);
    }
}

/// The sign character of a command.
pub open spec fn sign_char(add: bool) -> char {
    if add {
        '+'
    } else {
        '-'
    }
}

/// A written emoji command is read back as the command it writes: `$emoji`,
/// the sign, `=` and a character that is not white space.
pub proof fn law_emoji_command_round_trip(add: bool, c: char)
    requires
        !is_white_space(c),
    ensures
        spec_emoji_command(strip_ws(seq!['$', 'e', 'm', 'o', 'j', 'i', sign_char(add), '=', c]))
            == Some(EmojiCommand { add, code: c as u32 }),
{
    let s = seq!['$', 'e', 'm', 'o', 'j', 'i', sign_char(add), '=', c];
    lemma_strip_ws_keeps(s);
    assert(s.take(6) =~= seq!['$', 'e', 'm', 'o', 'j', 'i']);
}

/// The text of a switch command for group `group`.
pub open spec fn toggle_text(
    add: bool,
    group: Seq<char>,
    first: Seq<char>,
    separator: char,
    second: Seq<char>,
) -> Seq<char> {
    seq!['$'] + group + seq![sign_char(add), '='] + first + seq![separator] + second
}

/// A written switch command is read back as the switch it writes, for any
/// group name without white space (and so without line feeds).
pub proof fn law_toggle_command_round_trip(
    add: bool,
    group: Seq<char>,
    first: Seq<char>,
    separator: char,
    second: Seq<char>,
)
    requires
        free_of_ws(group),
        free_of_ws(first),
        free_of_ws(second),
        separator == '-' || separator == '_',
    ensures
        spec_toggle_command(strip_ws(toggle_text(add, group, first, separator, second)), first, second)
            == Some((add, group)),
{
    let s = toggle_text(add, group, first, separator, second);
    let g = group.len() as int;
    let f = first.len() as int;
    let n = s.len() as int;
    assert(n == 1 + g + 2 + f + 1 + second.len());
    assert forall|i: int| 0 <= i < n implies !is_white_space(#[trigger] s[i]) by {
        if 1 <= i < 1 + g {
            assert(s[i] == group[i - 1]);
        } else if 3 + g <= i < 3 + g + f {
            assert(s[i] == first[i - 3 - g]);
        } else if 4 + g + f <= i {
            assert(s[i] == second[i - 4 - g - f]);
        }
    }
    lemma_strip_ws_keeps(s);
    assert(s.subrange(1, 1 + g) =~= group);
    assert(s.subrange(3 + g, 3 + g + f) =~= first);
    assert(s.subrange(n - second.len(), n) =~= second);
    assert(!group.contains('\n')) by {
        if group.contains('\n') {
            let i = choose|i: int| 0 <= i < group.len() && group[i] == '\n';
            assert(!is_white_space(group[i]));
        }
    }
}

proof fn lemma_skip_non_ws_to_end(s: Seq<char>, i: int)
    requires
        0 <= i <= s.len(),
        forall|j: int| i <= j < s.len() ==> !is_white_space(#[trigger] s[j]),
    ensures
        skip_non_ws(s, i) == s.len(),
    decreases s.len() - i,
{
    if i < s.len() {
        lemma_skip_non_ws_to_end(s, i + 1);
    }
}

/// A written symmetry command, "对称", a space and a word without white
/// space, is read back as that word.
pub proof fn law_symmetry_command_round_trip(word: Seq<char>)
    requires
        word.len() > 0,
        free_of_ws(word),
    ensures
        spec_symmetry_direction(seq!['对', '称', ' '] + word) == Some(word),
{
    let s = seq!['对', '称', ' '] + word;
    assert(s[0] == '对' && s[1] == '称' && s[2] == ' ');
    assert(skip_ws(s, 0) == 0);
    assert(s[3] == word[0]);
    assert(skip_ws(s, 3) == 3);
    assert(skip_ws(s, 2) == 3);
    assert forall|j: int| 3 <= j < s.len() implies !is_white_space(#[trigger] s[j]) by {
        assert(s[j] == word[j - 3]);
    }
    lemma_skip_non_ws_to_end(s, 3);
    assert(skip_ws(s, s.len() as int) == s.len());
    assert(s.subrange(3, s.len() as int) =~= word);
}

} // verus!
