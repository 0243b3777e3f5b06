use std::collections::HashSet;

use vstd::prelude::*;

use crate::text::{
    parse_emoji_command, parse_reaction_toggle, parse_symmetry_toggle, spec_emoji_command,
    spec_toggle_command, strip_ws, EmojiCommand, ToggleCommand,
};

verus! {

broadcast use vstd::std_specs::hash::group_hash_axioms;

// ---------------------------------------------------------------------------
// The emoji registry: the code points that count as emoji for reactions.
// ---------------------------------------------------------------------------

/// The set of registered emoji code points.
pub struct EmojiSet {
    codes: HashSet<u32>,
}

impl View for EmojiSet {
    type V = Set<u32>;

    closed spec fn view(&self) -> Set<u32> {
        self.codes@
    }
}

/// The registry after a command: `+` adds the code point, `-` removes it.
pub open spec fn emoji_after(s: Set<u32>, cmd: EmojiCommand) -> Set<u32> {
    if cmd.add {
        s.insert(cmd.code)
    } else {
        s.remove(cmd.code)
    }
}

impl EmojiSet {
    /// An empty registry.
    pub fn new() -> (r: EmojiSet)
        ensures
            r@ == Set::<u32>::empty(),
    {
        EmojiSet { codes: HashSet::new() }
    }

    /// A registry holding `codes`.
    pub fn from_codes(codes: HashSet<u32>) -> (r: EmojiSet)
        ensures
            r@ == codes@,
    {
        EmojiSet { codes }
    }

    /// The registered code points.
    pub fn codes(&self) -> (r: &HashSet<u32>)
        ensures
            r@ == self@,
    {
        &self.codes
    }

    /// Whether `code` is registered.
    pub fn contains(&self, code: u32) -> (r: bool)
        ensures
            r == self@.contains(code),
    {
        self.codes.contains(&code)
    }

    /// Carries out a registry command.
    pub fn apply(&mut self, cmd: EmojiCommand)
        ensures
            final(self)@ == emoji_after(old(self)@, cmd),
    {
        if cmd.add {
            self.codes.insert(cmd.code);
        } else {
            self.codes.remove(&cmd.code);
        }
    }

    /// Reads an administrator's message and carries out the registry
    /// command it states; returns whether it stated one (and the registry
    /// is to be saved).
    pub fn handle_admin_text(&mut self, text: &str) -> (r: bool)
        ensures
            r == spec_emoji_command(strip_ws(text@)) is Some,
            final(self)@ == emoji_after_text(old(self)@, text@),
    {
        match parse_emoji_command(text) {
            Some(cmd) => {
                self.apply(cmd);
                true
            },
            None => false,
        }
    }
}

/// A registry command decides the registration of its own code point, `+`
/// registering and `-` unregistering it, and leaves every other code point
/// as it was.
pub proof fn law_emoji_command_effect(s: Set<u32>, cmd: EmojiCommand, other: u32)
    ensures
        emoji_after(s, cmd).contains(cmd.code) == cmd.add,
        other != cmd.code ==> emoji_after(s, cmd).contains(other) == s.contains(other),
{
}

/// Repeating a registry command changes nothing more.
pub proof fn law_emoji_command_idempotent(s: Set<u32>, cmd: EmojiCommand)
    ensures
        emoji_after(emoji_after(s, cmd), cmd) == emoji_after(s, cmd),
{
    assert(emoji_after(emoji_after(s, cmd), cmd) =~= emoji_after(s, cmd));
}

/// The registry after an administrator's message: the command it states
/// is carried out; any other message changes nothing.
pub open spec fn emoji_after_text(s: Set<u32>, text: Seq<char>) -> Set<u32> {
    match spec_emoji_command(strip_ws(text)) {
        Some(cmd) => emoji_after(s, cmd),
        None => s,
    }
}

/// The registry after a run of administrators' messages, in order.
pub open spec fn emoji_after_texts(s: Set<u32>, texts: Seq<Seq<char>>) -> Set<u32>
    decreases texts.len(),
{
    if texts.len() == 0 {
        s
    } else {
        emoji_after_texts(emoji_after_text(s, texts[0]), texts.drop_first())
    }
}

proof fn lemma_emoji_kept(s: Set<u32>, texts: Seq<Seq<char>>, code: u32)
    requires
        s.contains(code),
        forall|i: int|
            0 <= i < texts.len() ==> spec_emoji_command(strip_ws(#[trigger] texts[i])) != Some(
                EmojiCommand { add: false, code },
            ),
    ensures
        emoji_after_texts(s, texts).contains(code),
    decreases texts.len(),
{
    if texts.len() > 0 {
        assert(spec_emoji_command(strip_ws(texts[0])) != Some(EmojiCommand { add: false, code }));
        let next = emoji_after_text(s, texts[0]);
        assert(next.contains(code));
        assert forall|i: int| 0 <= i < texts.drop_first().len() implies spec_emoji_command(
            strip_ws(#[trigger] texts.drop_first()[i]),
        ) != Some(EmojiCommand { add: false, code }) by {
            assert(texts.drop_first()[i] == texts[i + 1]);
        }
        lemma_emoji_kept(next, texts.drop_first(), code);
    }
}

/// A code point registered by an administrator's message stays registered
/// through any later messages, until one of them unregisters it.
pub proof fn law_emoji_registration_persists(
    s: Set<u32>,
    texts: Seq<Seq<char>>,
    j: int,
    code: u32,
)
    requires
        0 <= j < texts.len(),
        spec_emoji_command(strip_ws(texts[j])) == Some(EmojiCommand { add: true, code }),
        forall|i: int|
            j < i < texts.len() ==> spec_emoji_command(strip_ws(#[trigger] texts[i])) != Some(
                EmojiCommand { add: false, code },
            ),
    ensures
        emoji_after_texts(s, texts).contains(code),
    decreases j,
{
    let next = emoji_after_text(s, texts[0]);
    assert forall|i: int| j - 1 < i < texts.drop_first().len() implies spec_emoji_command(
        strip_ws(#[trigger] texts.drop_first()[i]),
    ) != Some(EmojiCommand { add: false, code }) by {
        assert(texts.drop_first()[i] == texts[i + 1]);
    }
    if j == 0 {
        assert(next.contains(code));
        lemma_emoji_kept(next, texts.drop_first(), code);
    } else {
        assert(texts.drop_first()[j - 1] == texts[j]);
        law_emoji_registration_persists(next, texts.drop_first(), j - 1, code);
    }
}

/// Whether the character `ch` is a registered emoji.
pub fn is_emoji(emojis: &EmojiSet, ch: char) -> (r: bool)
    ensures
        r == emojis@.contains(ch as u32),
{
    emojis.contains(ch as u32)
}

// ---------------------------------------------------------------------------
// The group switches: the groups in which a feature is on.
// ---------------------------------------------------------------------------

/// The groups in which a feature is switched on, each named once.
pub struct GroupSet {
    groups: Vec<String>,
}

/// The names of a list of groups.
pub open spec fn group_names(groups: Seq<String>) -> Seq<Seq<char>> {
    groups.map_values(|g: String| g@)
}

impl View for GroupSet {
    type V = Set<Seq<char>>;

    closed spec fn view(&self) -> Set<Seq<char>> {
        group_names(self.groups@).to_set()
    }
}

/// The switches after a command: `+` switches the group on, `-` off.
pub open spec fn groups_after(s: Set<Seq<char>>, add: bool, group: Seq<char>) -> Set<Seq<char>> {
    if add {
        s.insert(group)
    } else {
        s.remove(group)
    }
}

/// A switch command decides the state of its own group, `+` switching the
/// feature on and `-` off, and leaves every other group as it was.
pub proof fn law_group_command_effect(s: Set<Seq<char>>, add: bool, group: Seq<char>, other: Seq<char>)
    ensures
        groups_after(s, add, group).contains(group) == add,
        other != group ==> groups_after(s, add, group).contains(other) == s.contains(other),
{
}

/// The switches of the feature `first`-`second` after an administrator's
/// message: the switch it states is carried out; any other message changes
/// nothing.
pub open spec fn groups_after_text(
    s: Set<Seq<char>>,
    text: Seq<char>,
    first: Seq<char>,
    second: Seq<char>,
) -> Set<Seq<char>> {
    match spec_toggle_command(strip_ws(text), first, second) {
        Some((add, group)) => groups_after(s, add, group),
        None => s,
    }
}

/// The switches after a run of administrators' messages, in order.
pub open spec fn groups_after_texts(
    s: Set<Seq<char>>,
    texts: Seq<Seq<char>>,
    first: Seq<char>,
    second: Seq<char>,
) -> Set<Seq<char>>
    decreases texts.len(),
{
    if texts.len() == 0 {
        s
    } else {
        groups_after_texts(groups_after_text(s, texts[0], first, second), texts.drop_first(), first, second)
    }
}

proof fn lemma_group_kept(
    s: Set<Seq<char>>,
    texts: Seq<Seq<char>>,
    first: Seq<char>,
    second: Seq<char>,
    group: Seq<char>,
)
    requires
        s.contains(group),
        forall|i: int|
            0 <= i < texts.len() ==> spec_toggle_command(strip_ws(#[trigger] texts[i]), first, second)
                != Some((false, group)),
    ensures
        groups_after_texts(s, texts, first, second).contains(group),
    decreases texts.len(),
{
    if texts.len() > 0 {
        assert(spec_toggle_command(strip_ws(texts[0]), first, second) != Some((false, group)));
        let next = groups_after_text(s, texts[0], first, second);
        assert(next.contains(group));
        assert forall|i: int| 0 <= i < texts.drop_first().len() implies spec_toggle_command(
            strip_ws(#[trigger] texts.drop_first()[i]),
            first,
            second,
        ) != Some((false, group)) by {
            assert(texts.drop_first()[i] == texts[i + 1]);
        }
        lemma_group_kept(next, texts.drop_first(), first, second, group);
    }
}

/// A group switched on by an administrator's message stays on through any
/// later messages, until one of them switches it off.
pub proof fn law_group_switch_persists(
    s: Set<Seq<char>>,
    texts: Seq<Seq<char>>,
    first: Seq<char>,
    second: Seq<char>,
    j: int,
    group: Seq<char>,
)
    requires
        0 <= j < texts.len(),
        spec_toggle_command(strip_ws(texts[j]), first, second) == Some((true, group)),
        forall|i: int|
            j < i < texts.len() ==> spec_toggle_command(strip_ws(#[trigger] texts[i]), first, second)
                != Some((false, group)),
    ensures
        groups_after_texts(s, texts, first, second).contains(group),
    decreases j,
{
    let next = groups_after_text(s, texts[0], first, second);
    assert forall|i: int| j - 1 < i < texts.drop_first().len() implies spec_toggle_command(
        strip_ws(#[trigger] texts.drop_first()[i]),
        first,
        second,
    ) != Some((false, group)) by {
        assert(texts.drop_first()[i] == texts[i + 1]);
    }
    if j == 0 {
        assert(next.contains(group));
        lemma_group_kept(next, texts.drop_first(), first, second, group);
    } else {
        assert(texts.drop_first()[j - 1] == texts[j]);
        law_group_switch_persists(next, texts.drop_first(), first, second, j - 1, group);
    }
}

/// Repeating a switch command changes nothing more.
pub proof fn law_group_command_idempotent(s: Set<Seq<char>>, add: bool, group: Seq<char>)
    ensures
        groups_after(groups_after(s, add, group), add, group) == groups_after(s, add, group),
{
    assert(groups_after(groups_after(s, add, group), add, group) =~= groups_after(s, add, group));
}

impl GroupSet {
    #[verifier::type_invariant]
    spec fn names_once(self) -> bool {
        group_names(self.groups@).no_duplicates()
    }

    /// No group switched on.
    pub fn new() -> (r: GroupSet)
        ensures
            r@ == Set::<Seq<char>>::empty(),
    {
        let r = GroupSet { groups: Vec::new() };
        proof {
            assert(group_names(r.groups@) =~= Seq::<Seq<char>>::empty());
            assert(group_names(r.groups@).to_set() =~= Set::<Seq<char>>::empty());
        }
        r
    }

    /// The groups switched on, each once, in the order they were added.
    pub fn groups(&self) -> (r: &Vec<String>)
        ensures
            group_names(r@).to_set() == self@,
            group_names(r@).no_duplicates(),
    {
        proof {
            use_type_invariant(self);
        }
        &self.groups
    }

    /// The position of `name` in the list, if it is there.
    fn position(&self, name: &String) -> (r: Option<usize>)
        ensures
            r matches Some(i) ==> i < self.groups@.len() && self.groups@[i as int]@ == name@,
            r is None ==> !group_names(self.groups@).contains(name@),
    {
        let mut i: usize = 0;
        while i < self.groups.len()
            invariant
                i <= self.groups@.len(),
                forall|j: int| 0 <= j < i ==> self.groups@[j]@ != name@,
            decreases self.groups@.len() - i,
        {
            if self.groups[i].eq(name) {
                return Some(i);
            }
            i = i + 1;
        }
        proof {
            if group_names(self.groups@).contains(name@) {
                let j = choose|j: int|
                    0 <= j < group_names(self.groups@).len() && group_names(self.groups@)[j]
                        == name@;
                assert(self.groups@[j]@ == name@);
            }
        }
        None
    }

    /// Whether the feature is on in group `name`.
    pub fn contains(&self, name: &String) -> (r: bool)
        ensures
            r == self@.contains(name@),
    {
        let p = self.position(name);
        proof {
            if let Some(i) = p {
                assert(group_names(self.groups@)[i as int] == name@);
            }
        }
        p.is_some()
    }

    /// Switches the feature on in group `name`; returns whether it was off.
    pub fn insert(&mut self, name: String) -> (r: bool)
        ensures
            final(self)@ == old(self)@.insert(name@),
            r == !old(self)@.contains(name@),
    {
        proof {
            use_type_invariant(&*self);
        }
        let p = self.position(&name);
        match p {
            Some(i) => {
                proof {
                    assert(group_names(self.groups@)[i as int] == name@);
                    assert(self@.insert(name@) =~= self@);
                }
                false
            },
            None => {
                let ghost before = self.groups@;
                let ghost n = name@;
                let mut groups: Vec<String> = Vec::new();
                std::mem::swap(&mut groups, &mut self.groups);
                groups.push(name);
                proof {
                    assert(group_names(groups@) =~= group_names(before).push(n));
                    assert forall|a: int, b: int|
                        0 <= a < b < group_names(groups@).len() implies group_names(groups@)[a]
                        != group_names(groups@)[b] by {
                        if b == before.len() {
                            assert(group_names(before)[a] == group_names(groups@)[a]);
                        }
                    }
                    group_names(before).lemma_push_to_set_commute(n);
                }
                self.groups = groups;
                true
            },
        }
    }

    /// Switches the feature off in group `name`; returns whether it was on.
    pub fn remove(&mut self, name: &String) -> (r: bool)
        ensures
            final(self)@ == old(self)@.remove(name@),
            r == old(self)@.contains(name@),
    {
        proof {
            use_type_invariant(&*self);
        }
        let p = self.position(name);
        match p {
            Some(i) => {
                let ghost before = group_names(self.groups@);
                let mut groups: Vec<String> = Vec::new();
                std::mem::swap(&mut groups, &mut self.groups);
                groups.remove(i);
                proof {
                    let after = group_names(groups@);
                    assert(after =~= before.remove(i as int));
                    assert(before[i as int] == name@);
                    assert forall|a: int, b: int| 0 <= a < b < after.len() implies after[a]
                        != after[b] by {
                        let a2 = if a < i { a } else { a + 1 };
                        let b2 = if b < i { b } else { b + 1 };
                        assert(after[a] == before[a2]);
                        assert(after[b] == before[b2]);
                    }
                    assert forall|s: Seq<char>| after.contains(s) <==> (before.contains(s) && s
                        != name@) by {
                        if after.contains(s) {
                            let a = choose|a: int| 0 <= a < after.len() && after[a] == s;
                            let a2 = if a < i { a } else { a + 1 };
                            assert(before[a2] == s);
                            assert(a2 != i);
                        }
                        if before.contains(s) && s != name@ {
                            let a = choose|a: int| 0 <= a < before.len() && before[a] == s;
                            assert(a != i);
                            let a2 = if a < i { a } else { a - 1 };
                            assert(after[a2] == s);
                        }
                    }
                    assert(after.to_set() =~= before.to_set().remove(name@));
                }
                self.groups = groups;
                true
            },
            None => {
                proof {
                    assert(self@.remove(name@) =~= self@);
                }
                false
            },
        }
    }

    /// The switches holding the groups of `names` (a group named twice is
    /// kept once).
    pub fn from_names(names: Vec<String>) -> (r: GroupSet)
        ensures
            r@ == group_names(names@).to_set(),
    {
        let mut set = GroupSet::new();
        let mut i: usize = 0;
        while i < names.len()
            invariant
                i <= names@.len(),
                set@ == group_names(names@.take(i as int)).to_set(),
            decreases names@.len() - i,
        {
            set.insert(names[i].clone());
            proof {
                assert(group_names(names@.take(i + 1)) =~= group_names(names@.take(i as int)).push(
                    names@[i as int]@,
                ));
                group_names(names@.take(i as int)).lemma_push_to_set_commute(names@[i as int]@);
            }
            i = i + 1;
        }
        proof {
            assert(names@.take(names@.len() as int) =~= names@);
        }
        set
    }

    /// Carries out a switch command.
    pub fn apply(&mut self, cmd: ToggleCommand)
        ensures
            final(self)@ == groups_after(old(self)@, cmd.add, cmd.group@),
    {
        if cmd.add {
            self.insert(cmd.group);
        } else {
            self.remove(&cmd.group);
        }
    }

    /// Reads an administrator's message and carries out the switch for the
    /// image symmetry feature that it states; returns whether it stated one
    /// (and the switches are to be saved).
    pub fn handle_symmetry_admin_text(&mut self, text: &str) -> (r: bool)
        ensures
            r == spec_toggle_command(strip_ws(text@), "image"@, "symmetry"@) is Some,
            final(self)@ == groups_after_text(old(self)@, text@, "image"@, "symmetry"@),
    {
        match parse_symmetry_toggle(text) {
            Some(cmd) => {
                self.apply(cmd);
                true
            },
            None => false,
        }
    }

    /// Reads an administrator's message and carries out the switch for the
    /// message reaction feature that it states; returns whether it stated
    /// one (and the switches are to be saved).
    pub fn handle_reaction_admin_text(&mut self, text: &str) -> (r: bool)
        ensures
            r == spec_toggle_command(strip_ws(text@), "message"@, "reaction"@) is Some,
            final(self)@ == groups_after_text(old(self)@, text@, "message"@, "reaction"@),
    {
        match parse_reaction_toggle(text) {
            Some(cmd) => {
                self.apply(cmd);
                true
            },
            None => false,
        }
    }
}

} // verus!
