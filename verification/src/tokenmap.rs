//! Data model for token windows and clone records.
//!
//! A source file is abstracted as a sequence of tokens, each carrying a
//! textual identity and a byte span in the original text. A `TokenMap` walks
//! that sequence with a sliding window of `min_token` tokens and hands out one
//! `TokenItem` per window: the window's fingerprint (a slice of the file's
//! concatenated per-token hash string), its byte span, and a `done` flag that
//! is set on the last valid start position.

use vstd::prelude::*;
use vstd::math::min;
use vstd::string::StrSliceExecFns;
use vstd::utf8::is_ascii_chars;

verus! {

/// The byte span `[lo, hi)` of one token in its source file.
#[derive(Clone, Copy, PartialEq, Eq, Structural, Debug)]
pub struct TokenSpan {
    pub lo: u32,
    pub hi: u32,
}

/// One lexical token: its textual identity and its byte span.
#[derive(Clone, Debug)]
pub struct Token {
    pub id: String,
    pub lo: u32,
    pub hi: u32,
}

/// Mathematical model of a [`Token`].
#[verifier::ext_equal]
pub ghost struct TokenV {
    pub id: Seq<char>,
    pub lo: u32,
    pub hi: u32,
}

impl View for Token {
    type V = TokenV;

    open spec fn view(&self) -> TokenV {
        TokenV { id: self.id@, lo: self.lo, hi: self.hi }
    }
}

/// One side of a clone: the source file, the byte range, and (after fragment
/// extraction) the text of that range.
#[derive(Clone, Debug)]
pub struct CloneLoc {
    pub source_id: String,
    pub fragement: Option<String>,
    pub lo: u32,
    pub hi: u32,
}

/// Mathematical model of a [`CloneLoc`].
#[verifier::ext_equal]
pub ghost struct CloneLocV {
    pub source_id: Seq<char>,
    pub fragement: Option<Seq<char>>,
    pub lo: u32,
    pub hi: u32,
}

impl View for CloneLoc {
    type V = CloneLocV;

    open spec fn view(&self) -> CloneLocV {
        CloneLocV {
            source_id: self.source_id@,
            fragement: match self.fragement {
                Some(ref s) => Some(s@),
                None => None,
            },
            lo: self.lo,
            hi: self.hi,
        }
    }
}

impl CloneLoc {
    /// A fresh location with no extracted fragment.
    pub fn new(source_id: String, lo: u32, hi: u32) -> (r: CloneLoc)
        ensures
            r@ == (CloneLocV { source_id: source_id@, fragement: None, lo, hi }),
    {
        CloneLoc { source_id, lo, hi, fragement: None }
    }
}

/// A pair of source locations believed to hold duplicated content.
/// `duplication_a` is the earlier-encountered occurrence, `duplication_b` the
/// later one.
#[derive(Clone, Debug)]
pub struct ClonePair {
    pub duplication_a: CloneLoc,
    pub duplication_b: CloneLoc,
}

/// Mathematical model of a [`ClonePair`].
#[verifier::ext_equal]
pub ghost struct ClonePairV {
    pub duplication_a: CloneLocV,
    pub duplication_b: CloneLocV,
}

impl View for ClonePair {
    type V = ClonePairV;

    open spec fn view(&self) -> ClonePairV {
        ClonePairV { duplication_a: self.duplication_a@, duplication_b: self.duplication_b@ }
    }
}

/// [`ClonePair::enlarge`], on the model.
pub open spec fn spec_enlarge(c: ClonePairV, a_hi: u32, b_hi: u32) -> ClonePairV {
    ClonePairV {
        duplication_a: CloneLocV { hi: a_hi, ..c.duplication_a },
        duplication_b: CloneLocV { hi: b_hi, ..c.duplication_b },
    }
}

impl ClonePair {
    /// Extend both sides of a growing clone to new end offsets.
    pub fn enlarge(&mut self, a_hi: u32, b_hi: u32)
        ensures
            final(self)@ == spec_enlarge(old(self)@, a_hi, b_hi),
    {
        self.duplication_a.hi = a_hi;
        self.duplication_b.hi = b_hi;
    }

    /// Record the extracted text of the earlier occurrence.
    pub fn fragement_a(&mut self, fragement_a: String)
        ensures
            final(self)@ == (ClonePairV {
                duplication_a: CloneLocV {
                    fragement: Some(fragement_a@),
                    ..old(self)@.duplication_a
                },
                ..old(self)@
            }),
    {
        self.duplication_a.fragement = Some(fragement_a);
    }

    /// Record the extracted text of the later occurrence.
    pub fn fragement_b(&mut self, fragement_b: String)
        ensures
            final(self)@ == (ClonePairV {
                duplication_b: CloneLocV {
                    fragement: Some(fragement_b@),
                    ..old(self)@.duplication_b
                },
                ..old(self)@
            }),
    {
        self.duplication_b.fragement = Some(fragement_b);
    }

    /// Whether both sides have an ordered byte range, so that fragment
    /// extraction may be attempted at all.
    pub fn is_valid(&self) -> (r: bool)
        ensures
            r == (self.duplication_a.lo <= self.duplication_a.hi
                && self.duplication_b.lo <= self.duplication_b.hi),
    {
        self.duplication_a.lo <= self.duplication_a.hi
            && self.duplication_b.lo <= self.duplication_b.hi
    }
}

/// The payload of one window: its fingerprint, its source file, and the spans
/// of its first and last token.
#[derive(Clone, Debug)]
pub struct TokenItemValue {
    pub id: String,
    pub source_id: String,
    pub start: Option<TokenSpan>,
    pub end: Option<TokenSpan>,
}

/// Mathematical model of a [`TokenItemValue`].
#[verifier::ext_equal]
pub ghost struct TokenItemValueV {
    pub id: Seq<char>,
    pub source_id: Seq<char>,
    pub start: Option<TokenSpan>,
    pub end: Option<TokenSpan>,
}

impl TokenItemValueV {
    /// The payload handed out for a file with no tokens.
    pub open spec fn empty() -> TokenItemValueV {
        TokenItemValueV {
            id: Seq::<char>::empty(),
            source_id: Seq::<char>::empty(),
            start: None,
            end: None,
        }
    }
}

impl View for TokenItemValue {
    type V = TokenItemValueV;

    open spec fn view(&self) -> TokenItemValueV {
        TokenItemValueV {
            id: self.id@,
            source_id: self.source_id@,
            start: self.start,
            end: self.end,
        }
    }
}

impl Default for TokenItemValue {
    /// The payload handed out for a file with no tokens.
    fn default() -> (r: TokenItemValue)
        ensures
            r@ == TokenItemValueV::empty(),
    {
        TokenItemValue {
            id: String::new(),
            source_id: String::new(),
            start: None,
            end: None,
        }
    }
}

/// One step of the windower: `done` is set on the last valid start position.
#[derive(Clone, Debug)]
pub struct TokenItem {
    pub done: bool,
    pub value: TokenItemValue,
}

/// Mathematical model of a [`TokenItem`].
#[verifier::ext_equal]
pub ghost struct TokenItemV {
    pub done: bool,
    pub value: TokenItemValueV,
}

impl TokenItemV {
    /// The single terminal item handed out for a file with no tokens.
    pub open spec fn empty() -> TokenItemV {
        TokenItemV { done: true, value: TokenItemValueV::empty() }
    }
}

impl View for TokenItem {
    type V = TokenItemV;

    open spec fn view(&self) -> TokenItemV {
        TokenItemV { done: self.done, value: self.value@ }
    }
}

impl Default for TokenItem {
    /// The single terminal item handed out for a file with no tokens.
    fn default() -> (r: TokenItem)
        ensures
            r@ == TokenItemV::empty(),
    {
        TokenItem { done: true, value: TokenItemValue::default() }
    }
}

/// The sliding windower over one file's token sequence.
///
/// `hash_str` is the concatenation of one fixed-width (32 character) hash per
/// token, so the fingerprint of the window starting at token `istart` and
/// ending at token `iend` is the slice `hash_str[32 * istart .. 32 * iend]`.
/// `position` is the start index of the next window; it advances by one token
/// per step until the last valid start position is reached.
pub struct TokenMap {
    pub tokens: Vec<Token>,
    pub hash_str: String,
    pub source_id: String,
    pub position: usize,
    pub min_token: usize,
}

/// Mathematical model of a [`TokenMap`].
#[verifier::ext_equal]
pub ghost struct TokenMapV {
    pub tokens: Seq<TokenV>,
    pub hash_str: Seq<char>,
    pub source_id: Seq<char>,
    pub position: usize,
    pub min_token: usize,
}

impl View for TokenMap {
    type V = TokenMapV;

    open spec fn view(&self) -> TokenMapV {
        TokenMapV {
            tokens: self.tokens@.map_values(|t: Token| t@),
            hash_str: self.hash_str@,
            source_id: self.source_id@,
            position: self.position,
            min_token: self.min_token,
        }
    }
}

/// The last valid window start position: `token_count - min_token` when the
/// file has more tokens than one window holds, else `1`.
pub open spec fn spec_last_pos(tm: TokenMapV) -> int {
    if tm.tokens.len() > tm.min_token {
        tm.tokens.len() - tm.min_token
    } else {
        1
    }
}

/// The window payload at start position `pos`: both indices are clamped to the
/// last token, the fingerprint covers tokens `[istart, iend)`, and the spans
/// of tokens `istart` and `iend` bound the window's byte span.
pub open spec fn spec_window(tm: TokenMapV, pos: int) -> TokenItemValueV {
    let len = tm.tokens.len() as int;
    let istart = min(pos, len - 1);
    let iend = min(pos + tm.min_token, len - 1);
    TokenItemValueV {
        id: tm.hash_str.subrange(32 * istart, 32 * iend),
        source_id: tm.source_id,
        start: Some(TokenSpan { lo: tm.tokens[istart].lo, hi: tm.tokens[istart].hi }),
        end: Some(TokenSpan { lo: tm.tokens[iend].lo, hi: tm.tokens[iend].hi }),
    }
}

/// The full window item at start position `pos`, `done` included.
pub open spec fn spec_window_item(tm: TokenMapV, pos: int) -> TokenItemV {
    TokenItemV { done: pos >= spec_last_pos(tm), value: spec_window(tm, pos) }
}

/// [`TokenMap::next`], on the model: the map after the step and the item
/// handed out. A file with no tokens yields the terminal item at once; else
/// the window at `position` is handed out and `position` advances while it is
/// short of the last valid start position.
pub open spec fn spec_next(tm: TokenMapV) -> (TokenMapV, TokenItemV) {
    if tm.tokens.len() == 0 {
        (tm, TokenItemV::empty())
    } else {
        let item = spec_window_item(tm, tm.position as int);
        if (tm.position as int) < spec_last_pos(tm) {
            (TokenMapV { position: (tm.position + 1) as usize, ..tm }, item)
        } else {
            (tm, item)
        }
    }
}

fn min_usize(a: usize, b: usize) -> (r: usize)
    ensures
        r == min(a as int, b as int),
{
    if a < b {
        a
    } else {
        b
    }
}

impl TokenMap {
    /// The windower is well formed: the hash string is ASCII and holds exactly
    /// 32 characters per token, and the index arithmetic of one step fits in
    /// `usize`.
    pub open spec fn wf(&self) -> bool {
        &&& is_ascii_chars(self.hash_str@)
        &&& self.hash_str@.len() == 32 * self.tokens@.len()
        &&& 32 * self.tokens@.len() <= usize::MAX
        &&& self.position + self.min_token <= usize::MAX
        &&& self.min_token < usize::MAX
    }

    /// The slice of the hash string from character `start` to `end`.
    pub fn substring(&self, start: usize, end: usize) -> (r: &str)
        requires
            is_ascii_chars(self.hash_str@),
            start <= end <= self.hash_str@.len(),
        ensures
            r@ == self.hash_str@.subrange(start as int, end as int),
    {
        self.hash_str.as_str().substring_ascii(start, end)
    }

    /// The number of tokens of the file.
    pub fn size(&self) -> (r: usize)
        ensures
            r == self.tokens@.len(),
    {
        self.tokens.len()
    }

    /// The token at `index`, if the file has that many tokens.
    pub fn get<'a>(&'a self, index: usize) -> (r: Option<&'a Token>)
        ensures
            match r {
                Some(t) => index < self.tokens@.len() && *t == self.tokens@[index as int],
                None => index >= self.tokens@.len(),
            },
    {
        if index < self.tokens.len() {
            Some(&self.tokens[index])
        } else {
            None
        }
    }

    /// Hand out the next window item and advance the start position, exactly
    /// as [`spec_next`] states.
    pub fn next(&mut self) -> (r: TokenItem)
        requires
            old(self).tokens@.len() == 0 || old(self).wf(),
        ensures
            final(self)@ == spec_next(old(self)@).0,
            r@ == spec_next(old(self)@).1,
    {
        if self.size() == 0 {
            TokenItem::default()
        } else {
            let istart = min_usize(self.position, self.size() - 1);
            let iend = min_usize(self.position + self.min_token, self.size() - 1);
            let start = istart * 32;
            let end = iend * 32;
            let start_loc = match self.get(istart) {
                Some(item) => Some(TokenSpan { lo: item.lo, hi: item.hi }),
                None => None,
            };
            let end_loc = match self.get(iend) {
                Some(item) => Some(TokenSpan { lo: item.lo, hi: item.hi }),
                None => None,
            };
            let value = TokenItemValue {
                id: self.substring(start, end).to_owned(),
                start: start_loc,
                source_id: self.source_id.clone(),
                end: end_loc,
            };
            let mut last_pos: usize = 1;
            if self.size() > self.min_token {
                last_pos = self.size() - self.min_token;
            }
            if self.position < last_pos {
                self.position = self.position + 1;
                TokenItem { done: false, value }
            } else {
                TokenItem { done: true, value }
            }
        }
    }
}

/// For a file with no tokens, one step of the windower yields the single
/// terminal item and leaves the windower unchanged, so every later step does
/// the same; in particular no index arithmetic on the empty token sequence is
/// reached.
pub proof fn lemma_empty_file_single_terminal_item(tm: TokenMapV)
    requires
        tm.tokens.len() == 0,
    ensures
        spec_next(tm) == (tm, TokenItemV::empty()),
{
}

/// For a file with fewer tokens than the window size: the window at start
/// position `0` spans the whole file (it starts at the first token and ends at
/// the last); every window ends at the last token; and the windower signals
/// `done` exactly from start position `1` on, so one advancing step is
/// followed by a terminal item. For a one-token file every window starts at
/// the first token as well, so every window's span is the whole-file span.
pub proof fn lemma_short_file_windows(tm: TokenMapV, pos: int)
    requires
        0 < tm.tokens.len() < tm.min_token,
        0 <= pos,
    ensures
        spec_window(tm, 0).start == Some(TokenSpan {
            lo: tm.tokens[0].lo,
            hi: tm.tokens[0].hi,
        }),
        spec_window(tm, pos).end == Some(TokenSpan {
            lo: tm.tokens[tm.tokens.len() - 1].lo,
            hi: tm.tokens[tm.tokens.len() - 1].hi,
        }),
        spec_window_item(tm, pos).done <==> pos >= 1,
        tm.tokens.len() == 1 ==> spec_window(tm, pos).start == Some(TokenSpan {
            lo: tm.tokens[0].lo,
            hi: tm.tokens[0].hi,
        }),
{
}

} // verus!
