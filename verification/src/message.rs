use vstd::prelude::*;

use crate::registry::{EmojiSet, GroupSet};
use crate::text::{chars_of, parse_symmetry_command, spec_symmetry_direction};

verus! {

/// One segment of a chat message: its type (`text`, `face`, `image`,
/// `reply`, ...) and the fields of its data that the plugins read, each
/// present when the data holds it with the expected JSON type.
pub struct Segment {
    pub kind: String,
    /// `data.text`, the text of a text segment.
    pub text: Option<String>,
    /// `data.face_id`, the id of a face segment.
    pub face_id: Option<String>,
    /// `data.temp_url`, the download address of an image segment.
    pub temp_url: Option<String>,
    /// `data.segments`, the quoted message of a reply segment, when it
    /// reads as a message.
    pub segments: Option<Vec<Segment>>,
}

/// Whether `a` and `b` hold the same characters.
pub fn same_str(a: &str, b: &str) -> (r: bool)
    ensures
        r == (a@ == b@),
{
    let n = a.unicode_len();
    if n != b.unicode_len() {
        return false;
    }
    let mut i: usize = 0;
    while i < n
        invariant
            i <= n,
            n == a@.len(),
            n == b@.len(),
            forall|j: int| 0 <= j < i ==> a@[j] == b@[j],
        decreases n - i,
    {
        if a.get_char(i) != b.get_char(i) {
            return false;
        }
        i = i + 1;
    }
    proof {
        assert(a@ =~= b@);
    }
    true
}

/// The view of an optional text.
pub open spec fn opt_view(s: Option<String>) -> Option<Seq<char>> {
    match s {
        Some(t) => Some(t@),
        None => None,
    }
}

/// The address of an image segment.
pub open spec fn direct_url(seg: Segment) -> Option<Seq<char>> {
    if seg.kind@ == "image"@ {
        opt_view(seg.temp_url)
    } else {
        None
    }
}

/// The address of the first image segment of `segs` that has one.
pub open spec fn first_direct_url(segs: Seq<Segment>) -> Option<Seq<char>>
    decreases segs.len(),
{
    if segs.len() == 0 {
        None
    } else if direct_url(segs[0]) is Some {
        direct_url(segs[0])
    } else {
        first_direct_url(segs.drop_first())
    }
}

/// The address a segment offers: an image segment its own; a reply
/// segment, when quoted messages are searched, the first image address of
/// the quoted message (whose own replies are not searched).
pub open spec fn segment_url(seg: Segment, recursive: bool) -> Option<Seq<char>> {
    if seg.kind@ == "image"@ {
        opt_view(seg.temp_url)
    } else if seg.kind@ == "reply"@ && recursive {
        match seg.segments {
            Some(inner) => first_direct_url(inner@),
            None => None,
        }
    } else {
        None
    }
}

/// The first address that a segment of `segs` offers.
pub open spec fn first_url(segs: Seq<Segment>, recursive: bool) -> Option<Seq<char>>
    decreases segs.len(),
{
    if segs.len() == 0 {
        None
    } else {
        match segment_url(segs[0], recursive) {
            Some(u) => Some(u),
            None => first_url(segs.drop_first(), recursive),
        }
    }
}

proof fn lemma_first_url_flat(segs: Seq<Segment>)
    ensures
        first_url(segs, false) == first_direct_url(segs),
    decreases segs.len(),
{
    if segs.len() > 0 {
        lemma_first_url_flat(segs.drop_first());
    }
}

/// Finds the address of the picture a message carries: the first image
/// segment with an address, or, when `recursive`, the first image of a
/// quoted message.
pub fn get_image_url(segments: &Vec<Segment>, recursive: bool) -> (r: Option<String>)
    ensures
        opt_view(r) == first_url(segments@, recursive),
    decreases (if recursive { 1int } else { 0int }),
{
    let n = segments.len();
    let mut i: usize = 0;
    proof {
        assert(segments@.skip(0) =~= segments@);
    }
    while i < n
        invariant
            i <= n,
            n == segments@.len(),
            first_url(segments@, recursive) == first_url(segments@.skip(i as int), recursive),
        decreases n - i,
    {
        proof {
            assert(segments@.skip(i as int).drop_first() =~= segments@.skip(i + 1));
            assert(segments@.skip(i as int)[0] == segments@[i as int]);
        }
        let segment = &segments[i];
        if same_str(segment.kind.as_str(), "image") {
            match &segment.temp_url {
                Some(url) => {
                    return Some(url.clone());
                },
                None => {},
            }
        } else if same_str(segment.kind.as_str(), "reply") {
            if recursive {
                match &segment.segments {
                    Some(inner) => {
                        let found = get_image_url(inner, false);
                        proof {
                            lemma_first_url_flat(inner@);
                        }
                        if found.is_some() {
                            return found;
                        }
                    },
                    None => {},
                }
            }
        }
        i = i + 1;
    }
    proof {
        assert(segments@.skip(n as int) =~= Seq::<Segment>::empty());
    }
    None
}

// ---------------------------------------------------------------------------
// Reactions to a group message.
// ---------------------------------------------------------------------------

/// A reaction to put on a message.
pub enum Reaction {
    /// The face with this id.
    Face(String),
    /// The emoji with this code point.
    Emoji(u32),
}

/// The mathematical content of a [`Reaction`].
pub enum ReactionView {
    Face(Seq<char>),
    Emoji(u32),
}

impl View for Reaction {
    type V = ReactionView;

    open spec fn view(&self) -> ReactionView {
        match self {
            Reaction::Face(f) => ReactionView::Face(f@),
            Reaction::Emoji(c) => ReactionView::Emoji(*c),
        }
    }
}

pub open spec fn reactions_view(rs: Seq<Reaction>) -> Seq<ReactionView> {
    rs.map_values(|r: Reaction| r@)
}

/// One emoji reaction for each character of `text` that is a registered
/// emoji, in order (repeats included).
pub open spec fn emoji_reactions(text: Seq<char>, emojis: Set<u32>) -> Seq<ReactionView>
    decreases text.len(),
{
    if text.len() == 0 {
        Seq::empty()
    } else if emojis.contains(text.last() as u32) {
        emoji_reactions(text.drop_last(), emojis).push(ReactionView::Emoji(text.last() as u32))
    } else {
        emoji_reactions(text.drop_last(), emojis)
    }
}

/// The reactions a segment calls for: its face for a face segment with an
/// id, its emoji for a text segment with text, none otherwise.
pub open spec fn segment_reactions(seg: Segment, emojis: Set<u32>) -> Seq<ReactionView> {
    if seg.kind@ == "face"@ {
        match seg.face_id {
            Some(f) => seq![ReactionView::Face(f@)],
            None => Seq::empty(),
        }
    } else if seg.kind@ == "text"@ {
        match seg.text {
            Some(t) => emoji_reactions(t@, emojis),
            None => Seq::empty(),
        }
    } else {
        Seq::empty()
    }
}

/// The reactions of all segments, in order.
pub open spec fn message_reactions(segs: Seq<Segment>, emojis: Set<u32>) -> Seq<ReactionView>
    decreases segs.len(),
{
    if segs.len() == 0 {
        Seq::empty()
    } else {
        message_reactions(segs.drop_last(), emojis) + segment_reactions(segs.last(), emojis)
    }
}

fn text_reactions(text: &String, emojis: &EmojiSet, out: &mut Vec<Reaction>)
    ensures
        reactions_view(final(out)@) == reactions_view(old(out)@) + emoji_reactions(text@, emojis@),
{
    let chars = chars_of(text.as_str());
    let mut i: usize = 0;
    proof {
        assert(text@.take(0) =~= Seq::<char>::empty());
        assert(reactions_view(out@) =~= reactions_view(old(out)@) + Seq::<ReactionView>::empty());
    }
    while i < chars.len()
        invariant
            i <= chars@.len(),
            chars@ == text@,
            reactions_view(out@) == reactions_view(old(out)@) + emoji_reactions(
                text@.take(i as int),
                emojis@,
            ),
        decreases chars@.len() - i,
    {
        let c = chars[i];
        proof {
            assert(text@.take(i + 1).drop_last() =~= text@.take(i as int));
        }
        let ghost before = reactions_view(out@);
        if emojis.contains(c as u32) {
            out.push(Reaction::Emoji(c as u32));
            proof {
                assert(reactions_view(out@) =~= before.push(ReactionView::Emoji(c as u32)));
            }
        }
        i = i + 1;
    }
    proof {
        assert(text@.take(chars@.len() as int) =~= text@);
    }
}

/// The reactions the bot puts on a message in group `group`: none unless
/// the feature is on there; otherwise each face the message shows and each
/// registered emoji its texts hold, in order.
pub fn plan_reactions(groups: &GroupSet, group: &String, segments: &Vec<Segment>, emojis: &EmojiSet)
    -> (r: Vec<Reaction>)
    ensures
        reactions_view(r@) == if groups@.contains(group@) {
            message_reactions(segments@, emojis@)
        } else {
            Seq::empty()
        },
{
    let mut out: Vec<Reaction> = Vec::new();
    if !groups.contains(group) {
        proof {
            assert(reactions_view(out@) =~= Seq::<ReactionView>::empty());
        }
        return out;
    }
    let mut i: usize = 0;
    proof {
        assert(segments@.take(0) =~= Seq::<Segment>::empty());
        assert(reactions_view(out@) =~= Seq::<ReactionView>::empty());
    }
    while i < segments.len()
        invariant
            i <= segments@.len(),
            reactions_view(out@) == message_reactions(segments@.take(i as int), emojis@),
        decreases segments@.len() - i,
    {
        let segment = &segments[i];
        proof {
            assert(segments@.take(i + 1).drop_last() =~= segments@.take(i as int));
        }
        let ghost before = reactions_view(out@);
        if same_str(segment.kind.as_str(), "face") {
            match &segment.face_id {
                Some(face) => {
                    out.push(Reaction::Face(face.clone()));
                    proof {
                        assert(reactions_view(out@) =~= before + seq![ReactionView::Face(face@)]);
                    }
                },
                None => {
                    proof {
                        assert(before =~= before + Seq::<ReactionView>::empty());
                    }
                },
            }
        } else if same_str(segment.kind.as_str(), "text") {
            match &segment.text {
                Some(text) => {
                    text_reactions(text, emojis, &mut out);
                },
                None => {
                    proof {
                        assert(before =~= before + Seq::<ReactionView>::empty());
                    }
                },
            }
        } else {
            proof {
                assert(before =~= before + Seq::<ReactionView>::empty());
            }
        }
        i = i + 1;
    }
    proof {
        assert(segments@.take(segments@.len() as int) =~= segments@);
    }
    out
}

/// Whether the character is a registered emoji.
pub open spec fn registered(emojis: Set<u32>) -> spec_fn(char) -> bool {
    |c: char| emojis.contains(c as u32)
}

/// The emoji reaction for a character.
pub open spec fn emoji_of(c: char) -> ReactionView {
    ReactionView::Emoji(c as u32)
}

proof fn lemma_emoji_reactions_filter(t: Seq<char>, emojis: Set<u32>)
    ensures
        emoji_reactions(t, emojis) == t.filter(registered(emojis)).map_values(|c: char| emoji_of(c)),
    decreases t.len(),
{
    reveal_with_fuel(Seq::<_>::filter, 1);
    if t.len() > 0 {
        lemma_emoji_reactions_filter(t.drop_last(), emojis);
        let sub = t.drop_last().filter(registered(emojis));
        if emojis.contains(t.last() as u32) {
            assert(sub.push(t.last()).map_values(|c: char| emoji_of(c)) =~= sub.map_values(
                |c: char| emoji_of(c),
            ).push(emoji_of(t.last())));
        }
    } else {
        assert(t.filter(registered(emojis)).map_values(|c: char| emoji_of(c)) =~= Seq::<
            ReactionView,
        >::empty());
    }
}

/// The reactions to consecutive parts of a message are the reactions to
/// each part, one after the other.
pub proof fn law_reactions_concatenate(a: Seq<Segment>, b: Seq<Segment>, emojis: Set<u32>)
    ensures
        message_reactions(a + b, emojis) == message_reactions(a, emojis) + message_reactions(
            b,
            emojis,
        ),
    decreases b.len(),
{
    if b.len() == 0 {
        assert(a + b =~= a);
        assert(message_reactions(a, emojis) + Seq::<ReactionView>::empty() =~= message_reactions(
            a,
            emojis,
        ));
    } else {
        law_reactions_concatenate(a, b.drop_last(), emojis);
        assert((a + b).drop_last() =~= a + b.drop_last());
        assert((a + b).last() == b.last());
        assert(message_reactions(a, emojis) + message_reactions(b.drop_last(), emojis)
            + segment_reactions(b.last(), emojis) =~= message_reactions(a, emojis) + (
        message_reactions(b.drop_last(), emojis) + segment_reactions(b.last(), emojis)));
    }
}

proof fn lemma_reactions_single(seg: Segment, emojis: Set<u32>)
    ensures
        message_reactions(seq![seg], emojis) == segment_reactions(seg, emojis),
{
    assert(seq![seg].drop_last() =~= Seq::<Segment>::empty());
    assert(message_reactions(Seq::<Segment>::empty(), emojis) == Seq::<ReactionView>::empty());
    assert(seq![seg].last() == seg);
    assert(Seq::<ReactionView>::empty() + segment_reactions(seg, emojis) =~= segment_reactions(
        seg,
        emojis,
    ));
}

/// A text segment calls for one emoji reaction for each of its characters
/// that is a registered emoji, in order, whatever the text's length; a
/// face segment with an id calls for exactly that face.
pub proof fn law_segment_reactions(seg: Segment, emojis: Set<u32>)
    ensures
        seg.kind@ == "text"@ && seg.text is Some ==> message_reactions(seq![seg], emojis)
            == seg.text->0@.filter(registered(emojis)).map_values(|c: char| emoji_of(c)),
        seg.kind@ == "face"@ && seg.face_id is Some ==> message_reactions(seq![seg], emojis)
            == seq![ReactionView::Face(seg.face_id->0@)],
{
    lemma_reactions_single(seg, emojis);
    reveal_strlit("text");
    reveal_strlit("face");
    assert("text"@ != "face"@) by {
        assert("text"@[0] != "face"@[0]);
    }
    if seg.kind@ == "text"@ && seg.text is Some {
        lemma_emoji_reactions_filter(seg.text->0@, emojis);
    }
}

// ---------------------------------------------------------------------------
// Symmetry requests in a group.
// ---------------------------------------------------------------------------

/// A picture to make symmetric: the direction word and the address.
pub struct SymmetryJob {
    pub direction: String,
    pub url: String,
}

/// A group message asks for a symmetric picture when the feature is on in
/// the group, its text is a symmetry command, and it carries a picture
/// (its own or a quoted one); the job is the command's direction and the
/// picture's address.
pub open spec fn spec_symmetry_job(
    enabled: bool,
    text: Option<Seq<char>>,
    segs: Seq<Segment>,
) -> Option<(Seq<char>, Seq<char>)> {
    if enabled && text is Some && spec_symmetry_direction(text->0) is Some && first_url(segs, true) is Some {
        Some((spec_symmetry_direction(text->0)->0, first_url(segs, true)->0))
    } else {
        None
    }
}

/// Decides whether a group message asks for a symmetric picture.
pub fn plan_symmetry(
    groups: &GroupSet,
    group: &String,
    text: Option<&str>,
    segments: &Vec<Segment>,
) -> (r: Option<SymmetryJob>)
    ensures
        r is Some <==> spec_symmetry_job(
            groups@.contains(group@),
            match text { Some(t) => Some(t@), None => None },
            segments@,
        ) is Some,
        r matches Some(job) ==> spec_symmetry_job(
            groups@.contains(group@),
            match text { Some(t) => Some(t@), None => None },
            segments@,
        ) == Some((job.direction@, job.url@)),
{
    if !groups.contains(group) {
        return None;
    }
    let t = match text {
        Some(t) => t,
        None => return None,
    };
    let direction = match parse_symmetry_command(t) {
        Some(d) => d,
        None => return None,
    };
    let url = match get_image_url(segments, true) {
        Some(u) => u,
        None => return None,
    };
    Some(SymmetryJob { direction, url })
}

/// The segment is a picture of the message itself: an image segment with
/// an address.
pub open spec fn own_picture(seg: Segment) -> bool {
    seg.kind@ == "image"@ && seg.temp_url is Some
}

/// The segment is a reply whose quoted message holds a picture of its own.
pub open spec fn quotes_picture(seg: Segment) -> bool {
    &&& seg.kind@ == "reply"@
    &&& seg.segments is Some
    &&& exists|m: int| 0 <= m < seg.segments->0@.len() && own_picture(#[trigger] seg.segments->0@[m])
}

proof fn lemma_no_direct_url(v: Seq<Segment>)
    requires
        forall|k: int| 0 <= k < v.len() ==> !own_picture(#[trigger] v[k]),
    ensures
        first_direct_url(v) is None,
    decreases v.len(),
{
    if v.len() > 0 {
        assert(!own_picture(v[0]));
        assert forall|k: int| 0 <= k < v.drop_first().len() implies !own_picture(
            #[trigger] v.drop_first()[k],
        ) by {
            assert(v.drop_first()[k] == v[k + 1]);
        }
        lemma_no_direct_url(v.drop_first());
    }
}

proof fn lemma_direct_url_at(v: Seq<Segment>, j: int)
    requires
        0 <= j < v.len(),
        own_picture(v[j]),
        forall|k: int| 0 <= k < j ==> !own_picture(#[trigger] v[k]),
    ensures
        first_direct_url(v) == Some(v[j].temp_url->0@),
    decreases j,
{
    if j > 0 {
        assert(!own_picture(v[0]));
        assert forall|k: int| 0 <= k < j - 1 implies !own_picture(#[trigger] v.drop_first()[k]) by {
            assert(v.drop_first()[k] == v[k + 1]);
        }
        assert(v.drop_first()[j - 1] == v[j]);
        lemma_direct_url_at(v.drop_first(), j - 1);
    }
}

proof fn lemma_first_url_at(segs: Seq<Segment>, i: int, u: Seq<char>)
    requires
        0 <= i < segs.len(),
        segment_url(segs[i], true) == Some(u),
        forall|k: int| 0 <= k < i ==> segment_url(#[trigger] segs[k], true) is None,
    ensures
        first_url(segs, true) == Some(u),
    decreases i,
{
    if i > 0 {
        assert(segment_url(segs[0], true) is None);
        assert forall|k: int| 0 <= k < i - 1 implies segment_url(#[trigger] segs.drop_first()[k], true)
            is None by {
            assert(segs.drop_first()[k] == segs[k + 1]);
        }
        assert(segs.drop_first()[i - 1] == segs[i]);
        lemma_first_url_at(segs.drop_first(), i - 1, u);
    }
}

proof fn lemma_offers_nothing(seg: Segment)
    requires
        !own_picture(seg),
        !quotes_picture(seg),
    ensures
        segment_url(seg, true) is None,
{
    reveal_strlit("image");
    reveal_strlit("reply");
    assert("image"@ != "reply"@) by {
        assert("image"@[0] != "reply"@[0]);
    }
    if seg.kind@ == "reply"@ && seg.segments is Some {
        let v = seg.segments->0@;
        assert forall|k: int| 0 <= k < v.len() implies !own_picture(#[trigger] v[k]) by {
            if own_picture(v[k]) {
                assert(quotes_picture(seg));
            }
        }
        lemma_no_direct_url(v);
    }
}

/// When the feature is on and the text is a symmetry command, the job is
/// for the message's first picture: an image of the message itself, with
/// no picture (own or quoted) in an earlier segment, gives its address.
pub proof fn law_symmetry_job_uses_own_picture(text: Seq<char>, segs: Seq<Segment>, i: int)
    requires
        spec_symmetry_direction(text) is Some,
        0 <= i < segs.len(),
        own_picture(segs[i]),
        forall|k: int| 0 <= k < i ==> !own_picture(#[trigger] segs[k]) && !quotes_picture(segs[k]),
    ensures
        spec_symmetry_job(true, Some(text), segs) == Some(
            (spec_symmetry_direction(text)->0, segs[i].temp_url->0@),
        ),
{
    assert forall|k: int| 0 <= k < i implies segment_url(#[trigger] segs[k], true) is None by {
        lemma_offers_nothing(segs[k]);
    }
    lemma_first_url_at(segs, i, segs[i].temp_url->0@);
}

/// When the feature is on and the text is a symmetry command, a reply to a
/// picture gets a job for the quoted picture: a reply segment whose quoted
/// message holds an image with an address (its first one), with no picture
/// (own or quoted) in an earlier segment, gives that image's address.
pub proof fn law_symmetry_job_uses_quoted_picture(
    text: Seq<char>,
    segs: Seq<Segment>,
    i: int,
    j: int,
)
    requires
        spec_symmetry_direction(text) is Some,
        0 <= i < segs.len(),
        segs[i].kind@ == "reply"@,
        segs[i].segments is Some,
        0 <= j < segs[i].segments->0@.len(),
        own_picture(segs[i].segments->0@[j]),
        forall|k: int| 0 <= k < j ==> !own_picture(#[trigger] segs[i].segments->0@[k]),
        forall|k: int| 0 <= k < i ==> !own_picture(#[trigger] segs[k]) && !quotes_picture(segs[k]),
    ensures
        spec_symmetry_job(true, Some(text), segs) == Some(
            (spec_symmetry_direction(text)->0, segs[i].segments->0@[j].temp_url->0@),
        ),
{
    reveal_strlit("image");
    reveal_strlit("reply");
    assert("image"@ != "reply"@) by {
        assert("image"@[0] != "reply"@[0]);
    }
    assert forall|k: int| 0 <= k < i implies segment_url(#[trigger] segs[k], true) is None by {
        lemma_offers_nothing(segs[k]);
    }
    let v = segs[i].segments->0@;
    lemma_direct_url_at(v, j);
    lemma_first_url_at(segs, i, v[j].temp_url->0@);
}

/// No job is made where the feature is off, where there is no text, or
/// where the text is not a symmetry command.
pub proof fn law_no_symmetry_job_without_switch_or_command(
    enabled: bool,
    text: Option<Seq<char>>,
    segs: Seq<Segment>,
)
    requires
        !enabled || text is None || spec_symmetry_direction(text->0) is None,
    ensures
        spec_symmetry_job(enabled, text, segs) is None,
{
}

} // verus!
