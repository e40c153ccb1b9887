//! Texts of bounded length, as the device keeps and shows them.
//!
//! A text that does not fit is not cut: what would overflow is left out whole.

use vstd::prelude::*;
use vstd::utf8::{encode_utf8, is_ascii_chars, is_ascii_chars_encode_utf8, valid_utf8};

verus! {

/// The number of bytes that `s` takes.
pub open spec fn utf8_len(s: Seq<char>) -> nat {
    encode_utf8(s).len()
}

/// `text` with `piece` behind it, where both together take no more than `capacity`
/// bytes.
pub open spec fn appended(text: Seq<char>, piece: Seq<char>, capacity: nat) -> Option<Seq<char>> {
    if utf8_len(text) + utf8_len(piece) <= capacity {
        Some(text + piece)
    } else {
        None
    }
}

/// `s` if it takes no more than `capacity` bytes, and nothing otherwise.
pub open spec fn whole_or_empty(s: Seq<char>, capacity: nat) -> Seq<char> {
    if utf8_len(s) <= capacity {
        s
    } else {
        Seq::empty()
    }
}

/// `text` followed by the pieces, up to the first that does not fit.
pub open spec fn written(text: Seq<char>, pieces: Seq<Seq<char>>, capacity: nat) -> Seq<char>
    decreases pieces.len(),
{
    if pieces.len() == 0 {
        text
    } else {
        match appended(text, pieces[0], capacity) {
            Some(longer) => written(longer, pieces.drop_first(), capacity),
            None => text,
        }
    }
}

/// The pieces one after the other.
pub open spec fn joined(pieces: Seq<Seq<char>>) -> Seq<char>
    decreases pieces.len(),
{
    if pieces.len() == 0 {
        Seq::empty()
    } else {
        pieces[0] + joined(pieces.drop_first())
    }
}

/// The bytes of two texts stand one after the other.
pub proof fn encode_concat(a: Seq<char>, b: Seq<char>)
    ensures
        encode_utf8(a + b) == encode_utf8(a) + encode_utf8(b),
        utf8_len(a + b) == utf8_len(a) + utf8_len(b),
    decreases a.len(),
{
    if a.len() == 0 {
        assert(a + b =~= b);
        assert(encode_utf8(a) + encode_utf8(b) =~= encode_utf8(b));
    } else {
        assert((a + b).drop_first() =~= a.drop_first() + b);
        encode_concat(a.drop_first(), b);
        assert(encode_utf8(a + b) =~= encode_utf8(a) + encode_utf8(b));
    }
}

/// A text of ASCII characters takes one byte for each.
pub proof fn ascii_len(s: Seq<char>)
    requires
        is_ascii_chars(s),
    ensures
        utf8_len(s) == s.len(),
{
    is_ascii_chars_encode_utf8(s);
}

/// What is written fits, and where everything fits everything is written.
pub proof fn written_fits(text: Seq<char>, pieces: Seq<Seq<char>>, capacity: nat)
    requires
        utf8_len(text) <= capacity,
    ensures
        utf8_len(written(text, pieces, capacity)) <= capacity,
        utf8_len(text) + utf8_len(joined(pieces)) <= capacity ==> written(text, pieces, capacity)
            == text + joined(pieces),
    decreases pieces.len(),
{
    if pieces.len() == 0 {
        assert(text + joined(pieces) =~= text);
    } else {
        let rest = pieces.drop_first();
        encode_concat(text, pieces[0]);
        encode_concat(pieces[0], joined(rest));
        if utf8_len(text) + utf8_len(pieces[0]) <= capacity {
            written_fits(text + pieces[0], rest, capacity);
            assert(text + pieces[0] + joined(rest) =~= text + joined(pieces));
        }
    }
}

/// Appends `piece` to `text` within `N` bytes: `heapless::String::push_str` on a
/// `heapless::String<N>` that holds `text`.
///
/// `push_str` appends the whole piece when the bytes of both fit into the capacity
/// of `N` bytes. It fails otherwise.
#[verifier::external_body]
fn heapless_push_str<const N: usize>(text: &str, piece: &str) -> (longer: Result<String, ()>)
    ensures
        longer is Ok <==> appended(text@, piece@, N as nat) is Some,
        longer is Ok ==> Some(longer->Ok_0@) == appended(text@, piece@, N as nat),
{
    let mut bounded: heapless::String<N> = heapless::String::new();
    bounded.push_str(text)?;
    bounded.push_str(piece)?;
    Ok(String::from(bounded.as_str()))
}

/// The error of `core::str::from_utf8`.
#[verifier::external_type_specification]
#[verifier::external_body]
pub struct ExUtf8Error(core::str::Utf8Error);

/// `core::str::from_utf8` succeeds on UTF-8 and on nothing else, and the text that
/// it gives is spelled by the same bytes.
pub assume_specification[ core::str::from_utf8 ](v: &[u8]) -> (s: Result<
    &str,
    core::str::Utf8Error,
>)
    ensures
        s is Ok <==> valid_utf8(v@),
        s is Ok ==> encode_utf8(s->Ok_0@) == v@,
;

/// A text that takes at most `N` bytes.
#[derive(Debug)]
pub struct Text<const N: usize> {
    text: String,
}

impl<const N: usize> View for Text<N> {
    type V = Seq<char>;

    closed spec fn view(&self) -> Seq<char> {
        self.text@
    }
}

impl<const N: usize> Text<N> {
    /// Whether the text takes at most `N` bytes.
    pub open spec fn fits(self) -> bool {
        utf8_len(self@) <= N
    }

    #[verifier::type_invariant]
    spec fn type_fits(self) -> bool {
        self.fits()
    }

    /// A text of no characters.
    pub fn new() -> (text: Text<N>)
        ensures
            text.fits(),
            text@ == Seq::<char>::empty(),
    {
        Text { text: String::new() }
    }

    /// Appends `piece`, or leaves the text as it is where `piece` does not fit.
    pub fn push_str(&mut self, piece: &str) -> (pushed: Result<(), ()>)
        ensures
            final(self).fits(),
            pushed is Ok <==> appended(old(self)@, piece@, N as nat) is Some,
            pushed is Ok ==> Some(final(self)@) == appended(old(self)@, piece@, N as nat),
            pushed is Err ==> final(self)@ == old(self)@,
            pushed is Ok <==> encode_utf8(old(self)@).len() + encode_utf8(piece@).len() <= N,
            pushed is Ok ==> final(self)@ == old(self)@ + piece@,
    {
        proof {
            use_type_invariant(&*self);
            encode_concat(self@, piece@);
        }
        match heapless_push_str::<N>(self.text.as_str(), piece) {
            Ok(longer) => {
                self.text = longer;
                Ok(())
            },
            Err(()) => Err(()),
        }
    }

    /// Appends the pieces in order, up to the first that does not fit.
    pub fn write_pieces(&mut self, pieces: &[&str])
        ensures
            final(self).fits(),
            final(self)@ == written(
                old(self)@,
                Seq::new(pieces@.len(), |i: int| pieces@[i]@),
                N as nat,
            ),
    {
        let ghost all = Seq::new(pieces@.len(), |i: int| pieces@[i]@);
        proof {
            use_type_invariant(&*self);
            assert(all.skip(0) =~= all);
        }
        let mut i: usize = 0;
        while i < pieces.len()
            invariant
                i <= pieces@.len(),
                all == Seq::new(pieces@.len(), |i: int| pieces@[i]@),
                self.fits(),
                written(old(self)@, all, N as nat) == written(
                    self@,
                    all.skip(i as int),
                    N as nat,
                ),
            decreases pieces@.len() - i,
        {
            assert(all.skip(i as int)[0] == pieces@[i as int]@);
            assert(all.skip(i as int).drop_first() =~= all.skip(i + 1));
            match self.push_str(pieces[i]) {
                Ok(()) => {},
                Err(()) => {
                    return;
                },
            }
            i = i + 1;
        }
    }

    /// The characters of the text.
    pub fn as_str(&self) -> (s: &str)
        ensures
            s@ == self@,
            self.fits(),
    {
        proof {
            use_type_invariant(self);
        }
        self.text.as_str()
    }
}

/// Copies `s` into a bounded text. A text that does not fit leaves nothing.
pub fn copy_str<const N: usize>(s: &str) -> (text: Text<N>)
    ensures
        text.fits(),
        text@ == whole_or_empty(s@, N as nat),
        encode_utf8(s@).len() <= N ==> text@ == s@,
        encode_utf8(s@).len() > N ==> text@.len() == 0,
{
    let mut text: Text<N> = Text::new();
    let pushed = text.push_str(s);
    assert(Seq::<char>::empty() + s@ =~= s@);
    text
}

/// Copies `s` into a bounded text where it fits.
pub fn copy_whole<const N: usize>(s: &str) -> (text: Option<Text<N>>)
    ensures
        text is Some <==> utf8_len(s@) <= N,
        text is Some ==> text->Some_0.fits() && text->Some_0@ == s@,
        text is Some <==> encode_utf8(s@).len() <= N,
{
    let mut text: Text<N> = Text::new();
    assert(Seq::<char>::empty() + s@ =~= s@);
    match text.push_str(s) {
        Ok(()) => Some(text),
        Err(()) => None,
    }
}

/// A text is kept whole where its bytes fit, and not at all where they do not.
pub proof fn texts_are_kept_whole_or_not_at_all(s: Seq<char>, capacity: nat)
    ensures
        encode_utf8(s).len() <= capacity ==> whole_or_empty(s, capacity) == s,
        encode_utf8(s).len() > capacity ==> whole_or_empty(s, capacity).len() == 0,
{
}

/// Joined pieces stand in order, with nothing between them.
pub proof fn joined_pieces_stand_in_order(pieces: Seq<Seq<char>>, piece: Seq<char>)
    ensures
        joined(Seq::empty()).len() == 0,
        joined(pieces.push(piece)) == joined(pieces) + piece,
    decreases pieces.len(),
{
    if pieces.len() == 0 {
        assert(pieces.push(piece).drop_first() =~= pieces);
        assert(joined(pieces) =~= Seq::empty());
        assert(joined(pieces.push(piece)) =~= joined(pieces) + piece);
    } else {
        assert(pieces.push(piece).drop_first() =~= pieces.drop_first().push(piece));
        joined_pieces_stand_in_order(pieces.drop_first(), piece);
        assert(joined(pieces.push(piece)) =~= joined(pieces) + piece);
    }
}

/// Pieces are written whole and in order, and as many as fit: `k` of them, and the next
/// one would take more bytes than are left.
pub proof fn whole_pieces_are_written(
    text: Seq<char>,
    pieces: Seq<Seq<char>>,
    capacity: nat,
) -> (k: int)
    requires
        encode_utf8(text).len() <= capacity,
    ensures
        0 <= k <= pieces.len(),
        written(text, pieces, capacity) == text + joined(pieces.take(k)),
        encode_utf8(written(text, pieces, capacity)).len() <= capacity,
        k < pieces.len() ==> encode_utf8(written(text, pieces, capacity)).len() + encode_utf8(
            pieces[k],
        ).len() > capacity,
    decreases pieces.len(),
{
    if pieces.len() == 0 {
        assert(text + joined(pieces.take(0)) =~= text);
        0
    } else {
        encode_concat(text, pieces[0]);
        if encode_utf8(text).len() + encode_utf8(pieces[0]).len() <= capacity {
            let rest = pieces.drop_first();
            let k = whole_pieces_are_written(text + pieces[0], rest, capacity);
            assert(pieces.take(k + 1).drop_first() =~= rest.take(k));
            assert(text + pieces[0] + joined(rest.take(k)) =~= text + joined(pieces.take(k + 1)));
            k + 1
        } else {
            assert(text + joined(pieces.take(0)) =~= text);
            0
        }
    }
}

} // verus!
