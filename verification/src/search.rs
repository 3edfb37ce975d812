//! Splitting plugin identifiers into search tokens: names are cut at
//! separators and camel-case boundaries, then each piece is segmented into
//! English words.
use vstd::prelude::*;

use instant_segment::{Search, Segmenter};

use crate::text::{chars_of, string_from_chars};

verus! {

/// `instant_segment::Segmenter`, the word-frequency model used to segment text.
#[verifier::external_type_specification]
#[verifier::external_body]
pub struct ExSegmenter(Segmenter);

/// `instant_segment::Search`, the scratch state of a segmentation.
#[verifier::external_type_specification]
#[verifier::external_body]
pub struct ExSearch(Search);

/// Whether `char::is_uppercase` holds of a character (the Unicode `Uppercase` property).
pub uninterp spec fn char_is_upper(c: char) -> bool;

/// Whether `char::is_lowercase` holds of a character (the Unicode `Lowercase` property).
pub uninterp spec fn char_is_lower(c: char) -> bool;

/// The text `str::to_lowercase` gives.
pub uninterp spec fn lowercase(s: Seq<char>) -> Seq<char>;

/// `char::is_uppercase`. The contract claims only that it is a function of the
/// character, named [`char_is_upper`].
#[verifier::external_body]
fn is_upper(c: char) -> (res: bool)
    ensures
        res == char_is_upper(c),
{
    c.is_uppercase()
}

/// `char::is_lowercase`. The contract claims only that it is a function of the
/// character, named [`char_is_lower`].
#[verifier::external_body]
fn is_lower(c: char) -> (res: bool)
    ensures
        res == char_is_lower(c),
{
    c.is_lowercase()
}

/// `str::to_lowercase`. The contract claims that the result is a function of the text,
/// named [`lowercase`], and, as std documents (each character lowers to one or more
/// characters), that a non-empty text lowers to a non-empty one.
#[verifier::external_body]
fn to_lowercase(s: &str) -> (res: String)
    ensures
        res@ == lowercase(s@),
        s@.len() > 0 ==> res@.len() > 0,
{
    s.to_lowercase()
}

/// A character that separates the words of an identifier.
pub open spec fn is_separator(c: char) -> bool {
    c == '_' || c == '-' || c == ' ' || c == '.'
}

/// The pieces finished so far and the piece being built, after reading `s`.
pub open spec fn split_state(s: Seq<char>) -> (Seq<Seq<char>>, Seq<char>)
    decreases s.len(),
{
    if s.len() == 0 {
        (Seq::<Seq<char>>::empty(), Seq::<char>::empty())
    } else {
        let (parts, cur) = split_state(s.drop_last());
        let ch = s.last();
        if is_separator(ch) {
            if cur.len() > 0 {
                (parts.push(cur), Seq::<char>::empty())
            } else {
                (parts, cur)
            }
        } else if char_is_upper(ch) && cur.len() > 0 && char_is_lower(cur.last()) {
            (parts.push(cur), seq![ch])
        } else {
            (parts, cur.push(ch))
        }
    }
}

/// The pieces of an identifier: cut at `_`, `-`, space and `.`, and before an upper-case
/// letter that follows a lower-case one; empty pieces are dropped.
pub open spec fn pre_split_spec(s: Seq<char>) -> Seq<Seq<char>> {
    let (parts, cur) = split_state(s);
    if cur.len() > 0 {
        parts.push(cur)
    } else {
        parts
    }
}

fn is_separator_exec(c: char) -> (res: bool)
    ensures
        res == is_separator(c),
{
    c == '_' || c == '-' || c == ' ' || c == '.'
}

/// Splits an identifier into its pieces (see [`pre_split_spec`]).
pub fn pre_split(name: &str) -> (res: Vec<String>)
    ensures
        res.deep_view() == pre_split_spec(name@),
{
    let chars = chars_of(name);
    let mut parts: Vec<String> = Vec::new();
    let mut current: Vec<char> = Vec::new();
    let mut i: usize = 0;
    assert(chars@.take(0) =~= Seq::<char>::empty());
    while i < chars.len()
        invariant
            chars@ == name@,
            i <= chars@.len(),
            split_state(chars@.take(i as int)) == (parts.deep_view(), current@),
        decreases chars@.len() - i,
    {
        let ch = chars[i];
        let ghost pre = chars@.take(i + 1);
        assert(pre.drop_last() =~= chars@.take(i as int));
        assert(pre.last() == ch);
        let ghost before = parts.deep_view();
        if is_separator_exec(ch) {
            if current.len() > 0 {
                parts.push(string_from_chars(&current));
                assert(parts.deep_view() =~= before.push(current@));
                current = Vec::new();
            }
        } else if is_upper(ch) && current.len() > 0 && is_lower(current[current.len() - 1]) {
            parts.push(string_from_chars(&current));
            assert(parts.deep_view() =~= before.push(current@));
            current = Vec::new();
            current.push(ch);
            assert(current@ =~= seq![ch]);
        } else {
            current.push(ch);
        }
        i = i + 1;
    }
    assert(chars@.take(chars@.len() as int) =~= chars@);
    if current.len() > 0 {
        let ghost before = parts.deep_view();
        parts.push(string_from_chars(&current));
        assert(parts.deep_view() =~= before.push(current@));
    }
    parts
}

/// All pieces, one after the other.
pub open spec fn flatten(parts: Seq<Seq<char>>) -> Seq<char>
    decreases parts.len(),
{
    if parts.len() == 0 {
        Seq::<char>::empty()
    } else {
        flatten(parts.drop_last()) + parts.last()
    }
}

/// The characters of `s` that are not separators, in order.
pub open spec fn without_separators(s: Seq<char>) -> Seq<char>
    decreases s.len(),
{
    if s.len() == 0 {
        Seq::<char>::empty()
    } else if is_separator(s.last()) {
        without_separators(s.drop_last())
    } else {
        without_separators(s.drop_last()).push(s.last())
    }
}

/// No piece is empty or holds a separator.
pub open spec fn clean_pieces(parts: Seq<Seq<char>>) -> bool {
    forall|i: int|
        0 <= i < parts.len() ==> (#[trigger] parts[i]).len() > 0 && forall|k: int|
            0 <= k < parts[i].len() ==> !is_separator(parts[i][k])
}

proof fn lemma_split_state(s: Seq<char>)
    ensures
        flatten(split_state(s).0) + split_state(s).1 == without_separators(s),
        clean_pieces(split_state(s).0),
        forall|k: int|
            0 <= k < split_state(s).1.len() ==> !is_separator(#[trigger] split_state(s).1[k]),
    decreases s.len(),
{
    if s.len() > 0 {
        lemma_split_state(s.drop_last());
        let (parts, cur) = split_state(s.drop_last());
        let ch = s.last();
        if is_separator(ch) {
            if cur.len() > 0 {
                assert(parts.push(cur).drop_last() =~= parts);
                assert(flatten(parts.push(cur)) + Seq::<char>::empty() =~= flatten(parts) + cur);
            }
        } else if char_is_upper(ch) && cur.len() > 0 && char_is_lower(cur.last()) {
            assert(parts.push(cur).drop_last() =~= parts);
            assert(flatten(parts.push(cur)) + seq![ch] =~= (flatten(parts) + cur).push(ch));
        } else {
            assert(flatten(parts) + cur.push(ch) =~= (flatten(parts) + cur).push(ch));
        }
    }
}

/// The pieces of an identifier are never empty and hold no separator, and together they
/// spell the identifier without its separators.
pub proof fn lemma_pre_split_pieces(s: Seq<char>)
    ensures
        clean_pieces(pre_split_spec(s)),
        flatten(pre_split_spec(s)) == without_separators(s),
{
    lemma_split_state(s);
    let (parts, cur) = split_state(s);
    if cur.len() > 0 {
        assert(parts.push(cur).drop_last() =~= parts);
    }
}

/// Text the segmenter accepts: ASCII lower-case letters and digits only.
pub open spec fn segmentable(s: Seq<char>) -> bool {
    forall|i: int| 0 <= i < s.len() ==> ('a' <= #[trigger] s[i] && s[i] <= 'z') || ('0' <= s[i] && s[i] <= '9')
}

/// The longest word a [`WordModel`] considers: 24 characters, the limit
/// `Segmenter::new` starts with.
pub const WORD_LENGTH_LIMIT: usize = 24;

/// `Segmenter::set_limit`: the longest word the segmenter considers from now on. Nothing
/// is claimed of the segmenter afterwards (it is opaque); the library calls this only with
/// a limit of at least one.
#[verifier::external_body]
fn set_word_limit(segmenter: &mut Segmenter, limit: usize)
    requires
        limit >= 1,
{
    segmenter.set_limit(limit)
}

/// A word-frequency model ready to segment text. The segmenter sits in a private field and
/// [`WordModel::new`] is the only way to make one, so every model has the word-length
/// limit [`WORD_LENGTH_LIMIT`], which is at least one.
pub struct WordModel {
    segmenter: Segmenter,
}

impl WordModel {
    /// A model over `segmenter`, with its word-length limit set to [`WORD_LENGTH_LIMIT`].
    /// Nothing is stated of the model: the segmenter is opaque.
    pub fn new(segmenter: Segmenter) -> WordModel {
        let mut segmenter = segmenter;
        set_word_limit(&mut segmenter, WORD_LENGTH_LIMIT);
        WordModel { segmenter }
    }
}

/// `Segmenter::segment` on `text`, with the words collected. As the crate's source shows
/// (`Ascii::new`), it fails exactly when the text holds a character other than an ASCII
/// lower-case letter or digit; with a word-length limit of at least one, which every
/// [`WordModel`] has, it does not panic on text it accepts. The words depend on the model,
/// so nothing is claimed of them.
#[verifier::external_body]
fn segment_words(model: &WordModel, text: &str, search: &mut Search) -> (res: Option<Vec<String>>)
    ensures
        res is Some <==> segmentable(text@),
{
    model.segmenter.segment(text, search).ok().map(|words| words.map(|w| w.to_string()).collect())
}

/// The non-empty words, in order.
pub open spec fn nonempty_words(ws: Seq<Seq<char>>) -> Seq<Seq<char>>
    decreases ws.len(),
{
    if ws.len() == 0 {
        ws
    } else if ws.last().len() > 0 {
        nonempty_words(ws.drop_last()).push(ws.last())
    } else {
        nonempty_words(ws.drop_last())
    }
}

/// The tokens from the lower-cased pieces and what segmenting each gave: its non-empty
/// words, or the piece itself when segmenting failed.
pub open spec fn piece_tokens(lowers: Seq<Seq<char>>, segs: Seq<Option<Seq<Seq<char>>>>) -> Seq<Seq<char>>
    decreases lowers.len(),
{
    if lowers.len() == 0 || segs.len() == 0 {
        Seq::<Seq<char>>::empty()
    } else {
        piece_tokens(lowers.drop_last(), segs.drop_last()) + match segs.last() {
            Some(ws) => nonempty_words(ws),
            None => seq![lowers.last()],
        }
    }
}

/// The tokens of an identifier: the piece tokens, then the whole identifier in lower case
/// unless it is already among them.
pub open spec fn identifier_tokens(original: Seq<char>, lowers: Seq<Seq<char>>, segs: Seq<Option<Seq<Seq<char>>>>) -> Seq<
    Seq<char>,
> {
    let t = piece_tokens(lowers, segs);
    if t.contains(original) {
        t
    } else {
        t.push(original)
    }
}

/// The search tokens of an identifier, given each lower-cased piece and what segmenting it
/// gave (`None` when segmenting failed).
pub fn assemble_tokens(lowers: &[String], segs: &[Option<Vec<String>>], original: &str) -> (res: Vec<String>)
    requires
        lowers@.len() == segs@.len(),
    ensures
        res.deep_view() == identifier_tokens(original@, lowers.deep_view(), segs.deep_view()),
{
    let mut tokens: Vec<String> = Vec::new();
    let mut i: usize = 0;
    while i < lowers.len()
        invariant
            lowers@.len() == segs@.len(),
            lowers.deep_view().len() == lowers@.len(),
            segs.deep_view().len() == segs@.len(),
            i <= lowers@.len(),
            tokens.deep_view() == piece_tokens(lowers.deep_view().take(i as int), segs.deep_view().take(i as int)),
        decreases lowers@.len() - i,
    {
        let ghost pl = lowers.deep_view().take(i + 1);
        let ghost ps = segs.deep_view().take(i + 1);
        assert(pl.drop_last() =~= lowers.deep_view().take(i as int));
        assert(ps.drop_last() =~= segs.deep_view().take(i as int));
        assert(pl.last() == lowers@[i as int]@);
        assert(ps.last() == segs@[i as int].deep_view());
        let ghost before = tokens.deep_view();
        match &segs[i] {
            Some(words) => {
                let mut j: usize = 0;
                assert(words.deep_view().take(0) =~= Seq::<Seq<char>>::empty());
                while j < words.len()
                    invariant
                        j <= words@.len(),
                        words.deep_view().len() == words@.len(),
                        tokens.deep_view() == before + nonempty_words(words.deep_view().take(j as int)),
                    decreases words@.len() - j,
                {
                    let ghost wp = words.deep_view().take(j + 1);
                    assert(wp.drop_last() =~= words.deep_view().take(j as int));
                    assert(wp.last() == words@[j as int]@);
                    if !words[j].as_str().is_empty() {
                        let ghost tb = tokens.deep_view();
                        tokens.push(words[j].clone());
                        assert(tokens.deep_view() =~= tb.push(words@[j as int]@));
                        assert(tokens.deep_view() =~= before + nonempty_words(wp));
                    }
                    j = j + 1;
                }
                assert(words.deep_view().take(words@.len() as int) =~= words.deep_view());
            },
            None => {
                tokens.push(lowers[i].clone());
                assert(tokens.deep_view() =~= before + seq![lowers@[i as int]@]);
            },
        }
        i = i + 1;
    }
    assert(lowers.deep_view().take(lowers@.len() as int) =~= lowers.deep_view());
    assert(segs.deep_view().take(segs@.len() as int) =~= segs.deep_view());
    if !crate::text::contains_str(tokens.as_slice(), original) {
        let ghost before = tokens.deep_view();
        tokens.push(String::from_str(original));
        assert(tokens.deep_view() =~= before.push(original@));
    }
    tokens
}

proof fn lemma_nonempty_words(ws: Seq<Seq<char>>)
    ensures
        forall|i: int| 0 <= i < nonempty_words(ws).len() ==> (#[trigger] nonempty_words(ws)[i]).len() > 0,
    decreases ws.len(),
{
    if ws.len() > 0 {
        lemma_nonempty_words(ws.drop_last());
        let prev = nonempty_words(ws.drop_last());
        assert forall|i: int| 0 <= i < nonempty_words(ws).len() implies (#[trigger] nonempty_words(ws)[i]).len() > 0 by {
            if i < prev.len() {
                assert(nonempty_words(ws)[i] == prev[i]);
            }
        }
    }
}

proof fn lemma_piece_tokens_nonempty(lowers: Seq<Seq<char>>, segs: Seq<Option<Seq<Seq<char>>>>)
    requires
        forall|i: int| 0 <= i < lowers.len() ==> (#[trigger] lowers[i]).len() > 0,
    ensures
        forall|i: int|
            0 <= i < piece_tokens(lowers, segs).len() ==> (#[trigger] piece_tokens(lowers, segs)[i]).len() > 0,
    decreases lowers.len(),
{
    if lowers.len() > 0 && segs.len() > 0 {
        assert forall|i: int| 0 <= i < lowers.drop_last().len() implies (#[trigger] lowers.drop_last()[i]).len() > 0 by {
            assert(lowers.drop_last()[i] == lowers[i]);
        }
        lemma_piece_tokens_nonempty(lowers.drop_last(), segs.drop_last());
        let prev = piece_tokens(lowers.drop_last(), segs.drop_last());
        let tail = match segs.last() {
            Some(ws) => nonempty_words(ws),
            None => seq![lowers.last()],
        };
        match segs.last() {
            Some(ws) => lemma_nonempty_words(ws),
            None => {},
        }
        assert(lowers.last() == lowers[lowers.len() - 1]);
        let all = piece_tokens(lowers, segs);
        assert(all == prev + tail);
        assert forall|i: int| 0 <= i < all.len() implies (#[trigger] all[i]).len() > 0 by {
            if i < prev.len() {
                assert(all[i] == prev[i]);
            } else {
                assert(all[i] == tail[i - prev.len()]);
            }
        }
    }
}

/// The pieces of an identifier in lower case.
pub open spec fn lowered_pieces(name: Seq<char>) -> Seq<Seq<char>> {
    pre_split_spec(name).map_values(|p: Seq<char>| lowercase(p))
}

/// `tokens` are the tokens of `name` when segmenting its lower-cased pieces gave `segs`:
/// one outcome per piece, a failure exactly for a piece the segmenter does not accept.
pub open spec fn tokens_with_segments(
    tokens: Seq<Seq<char>>,
    name: Seq<char>,
    segs: Seq<Option<Seq<Seq<char>>>>,
) -> bool {
    let lowers = lowered_pieces(name);
    &&& segs.len() == lowers.len()
    &&& forall|i: int|
        0 <= i < segs.len() ==> ((#[trigger] segs[i]) is Some <==> segmentable(lowers[i]))
    &&& tokens == identifier_tokens(lowercase(name), lowers, segs)
}

/// The search tokens of an identifier: for each piece (see [`pre_split`]), in lower case,
/// the words the segmenter finds (the piece itself when it cannot be segmented), then the
/// whole identifier in lower case unless already present. No tokens for an empty name.
pub fn split_identifier(name: &str, model: &WordModel, search: &mut Search) -> (res: Vec<String>)
    ensures
        name@.len() == 0 ==> res@.len() == 0,
        name@.len() > 0 ==> exists|segs: Seq<Option<Seq<Seq<char>>>>|
            #[trigger] tokens_with_segments(res.deep_view(), name@, segs),
        name@.len() > 0 ==> res.deep_view().contains(lowercase(name@)),
        forall|i: int| 0 <= i < res@.len() ==> (#[trigger] res@[i])@.len() > 0,
{
    if name.is_empty() {
        return Vec::new();
    }
    let parts = pre_split(name);
    proof {
        lemma_pre_split_pieces(name@);
    }
    let ghost lowers_spec = pre_split_spec(name@).map_values(|p: Seq<char>| lowercase(p));
    let mut lowers: Vec<String> = Vec::new();
    let mut segs: Vec<Option<Vec<String>>> = Vec::new();
    let mut i: usize = 0;
    while i < parts.len()
        invariant
            parts.deep_view() == pre_split_spec(name@),
            lowers_spec == pre_split_spec(name@).map_values(|p: Seq<char>| lowercase(p)),
            parts.deep_view().len() == parts@.len(),
            i <= parts@.len(),
            lowers@.len() == i,
            segs@.len() == i,
            lowers.deep_view() == lowers_spec.take(i as int),
            forall|k: int|
                0 <= k < i ==> ((#[trigger] segs@[k]) is Some <==> segmentable(lowers_spec[k])),
            forall|k: int| 0 <= k < i ==> (#[trigger] lowers@[k])@.len() > 0,
            clean_pieces(pre_split_spec(name@)),
        decreases parts@.len() - i,
    {
        assert(parts.deep_view()[i as int] == parts@[i as int]@);
        let lower = to_lowercase(parts[i].as_str());
        let s = segment_words(model, lower.as_str(), search);
        let ghost before = lowers.deep_view();
        lowers.push(lower);
        assert(lowers.deep_view() =~= lowers_spec.take(i + 1)) by {
            assert(lowers.deep_view() =~= before.push(lower@));
        }
        segs.push(s);
        i = i + 1;
    }
    assert(lowers_spec.take(parts@.len() as int) =~= lowers_spec);
    let original = to_lowercase(name);
    let res = assemble_tokens(lowers.as_slice(), segs.as_slice(), original.as_str());
    proof {
        assert forall|k: int| 0 <= k < lowers.deep_view().len() implies (#[trigger] lowers.deep_view()[k]).len() > 0 by {
            assert(lowers.deep_view()[k] == lowers@[k]@);
        }
        lemma_piece_tokens_nonempty(lowers.deep_view(), segs.deep_view());
        let t = piece_tokens(lowers.deep_view(), segs.deep_view());
        assert forall|i: int| 0 <= i < res@.len() implies (#[trigger] res@[i])@.len() > 0 by {
            assert(res.deep_view()[i] == res@[i]@);
            if i < t.len() {
                assert(res.deep_view()[i] == t[i]);
            } else {
                assert(!t.contains(original@));
                assert(res.deep_view() == t.push(original@));
                assert(res.deep_view().len() == res@.len());
                assert(i == t.len());
                assert(res.deep_view()[i] == original@);
                assert(name@.len() > 0);
            }
        }
        if !t.contains(original@) {
            assert(res.deep_view()[t.len() as int] == original@);
        }
    }
    assert(forall|k: int| 0 <= k < segs@.len() ==> (segs.deep_view()[k] is Some <==> segs@[k] is Some));
    assert(tokens_with_segments(res.deep_view(), name@, segs.deep_view()));
    res
}

} // verus!
