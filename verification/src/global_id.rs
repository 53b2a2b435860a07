use regex::Regex;
use vstd::hash_set::StringHashSet;
use vstd::prelude::*;

verus! {

/// `regex::Regex`, a compiled regular expression. Nothing is known of a
/// value but what `regex_language` says of it.
#[verifier::external_type_specification]
#[verifier::external_body]
pub struct ExRegex(regex::Regex);

/// `regex::Error`, the error for a pattern that `Regex::new` refuses.
/// Nothing is known of a value.
#[verifier::external_type_specification]
#[verifier::external_body]
pub struct ExRegexError(regex::Error);

/// What a compiled regular expression holds: the texts in which
/// `Regex::is_match` finds a match. This is not proved: it is taken that one
/// expression gives the same answer for the same text every time.
pub uninterp spec fn regex_language(re: Regex) -> Set<Seq<char>>;

/// What `Regex::new` makes of a pattern: the texts in which the compiled
/// expression finds a match, or `None` where the pattern is refused. This is
/// not proved: it is taken that the outcome depends on the pattern alone.
pub uninterp spec fn pattern_language(pattern: Seq<char>) -> Option<Set<Seq<char>>>;

/// `regex::Regex::new` compiles a pattern. It is taken, and not proved, that
/// it succeeds on the patterns that `pattern_language` has a language for,
/// and that the compiled expression then matches that language.
pub assume_specification[ Regex::new ](re: &str) -> (r: Result<Regex, regex::Error>)
    ensures
        match r {
            Ok(compiled) => pattern_language(re@) == Some(regex_language(compiled)),
            Err(_) => pattern_language(re@) is None,
        },
;

/// `regex::Regex::is_match` tells whether the expression matches anywhere in
/// the text. It is taken, and not proved, that the answer is that of
/// `regex_language`.
pub assume_specification[ Regex::is_match ](re: &Regex, haystack: &str) -> (b: bool)
    ensures
        b == regex_language(*re).contains(haystack@),
;

/// The alphabet of generated identifiers, by digit: `a..z`, `A..Z`, `0..9`,
/// `_`, `-`. Only the first 52 digits may lead an identifier.
pub open spec fn id_char(d: int) -> char {
    if d < 26 {
        (97 + d) as char
    } else if d < 52 {
        (39 + d) as char
    } else if d < 62 {
        (d - 4) as char
    } else if d == 62 {
        '_'
    } else {
        '-'
    }
}

/// A letter `a..z` or `A..Z`.
pub open spec fn is_id_start(c: char) -> bool {
    ('a' <= c && c <= 'z') || ('A' <= c && c <= 'Z')
}

/// A letter, a digit, `_` or `-`.
pub open spec fn is_id_continue(c: char) -> bool {
    is_id_start(c) || ('0' <= c && c <= '9') || c == '_' || c == '-'
}

/// Membership in the language `[a-zA-Z][a-zA-Z0-9_-]*`.
pub open spec fn is_css_identifier(s: Seq<char>) -> bool {
    &&& s.len() >= 1
    &&& is_id_start(s[0])
    &&& forall|k: int| 1 <= k < s.len() ==> is_id_continue(#[trigger] s[k])
}

/// The identifier with index `i`: identifiers are numbered by length first
/// and, within one length, as numbers written with the digits of `id_char`,
/// the leading digit in base 52 and the others in base 64.
pub open spec fn next_for(i: nat) -> Seq<char>
    decreases i,
{
    if i < 52 {
        seq![id_char(i as int)]
    } else {
        next_for(((i - 52) / 64) as nat).push(id_char((i - 52) % 64))
    }
}

/// Every generated identifier is a CSS identifier that needs no escaping.
pub proof fn lemma_next_for_in_language(i: nat)
    ensures
        is_css_identifier(next_for(i)),
    decreases i,
{
    if i >= 52 {
        let p = ((i - 52) / 64) as nat;
        lemma_next_for_in_language(p);
        let s = next_for(i);
        assert(s[0] == next_for(p)[0]);
        assert forall|k: int| 1 <= k < s.len() implies is_id_continue(#[trigger] s[k]) by {
            if k < s.len() - 1 {
                assert(s[k] == next_for(p)[k]);
            }
        }
    }
}

/// Distinct digits stand for distinct characters.
pub proof fn lemma_id_char_injective(a: int, b: int)
    requires
        0 <= a < 64,
        0 <= b < 64,
        id_char(a) == id_char(b),
    ensures
        a == b,
{
}

/// Distinct indices give distinct identifiers.
pub proof fn lemma_next_for_injective(i: nat, j: nat)
    requires
        next_for(i) == next_for(j),
    ensures
        i == j,
    decreases i,
{
    if i < 52 {
        if j >= 52 {
            lemma_next_for_in_language(((j - 52) / 64) as nat);
            assert(next_for(j).len() >= 2);
        }
        assert(next_for(i)[0] == id_char(i as int));
        assert(next_for(j)[0] == id_char(j as int));
        lemma_id_char_injective(i as int, j as int);
    } else {
        let p = ((i - 52) / 64) as nat;
        if j < 52 {
            lemma_next_for_in_language(p);
            assert(next_for(i).len() >= 2);
        } else {
            let q = ((j - 52) / 64) as nat;
            let s = next_for(i);
            assert(s.drop_last() =~= next_for(p));
            assert(s.drop_last() =~= next_for(q));
            assert(s.last() == id_char((i - 52) % 64));
            assert(s.last() == id_char((j - 52) % 64));
            lemma_next_for_injective(p, q);
            lemma_id_char_injective((i - 52) % 64, (j - 52) % 64);
        }
    }
}

/// The first 52 identifiers are the single letters `a` to `z`, then `A` to
/// `Z`.
pub proof fn lemma_next_for_single_letters(i: nat)
    requires
        i < 52,
    ensures
        i < 26 ==> next_for(i) == seq![('a' as nat + i) as char],
        i >= 26 ==> next_for(i) == seq![('A' as nat + (i - 26)) as char],
{
}

/// The digit that a character of the alphabet stands for.
pub open spec fn digit_of(c: char) -> int {
    if 'a' <= c && c <= 'z' {
        c as int - 97
    } else if 'A' <= c && c <= 'Z' {
        c as int - 39
    } else if '0' <= c && c <= '9' {
        c as int + 4
    } else if c == '_' {
        62
    } else {
        63
    }
}

/// The index of an identifier.
pub open spec fn index_of(s: Seq<char>) -> nat
    decreases s.len(),
{
    if s.len() <= 1 {
        digit_of(s[0]) as nat
    } else {
        (52 + 64 * index_of(s.drop_last()) + digit_of(s.last())) as nat
    }
}

/// Every CSS identifier of the language is generated: it is the identifier
/// of its index.
pub proof fn lemma_next_for_onto(s: Seq<char>)
    requires
        is_css_identifier(s),
    ensures
        next_for(index_of(s)) == s,
    decreases s.len(),
{
    if s.len() <= 1 {
        assert(next_for(index_of(s)) =~= s);
    } else {
        let rest = s.drop_last();
        assert(rest[0] == s[0]);
        assert forall|k: int| 1 <= k < rest.len() implies is_id_continue(#[trigger] rest[k]) by {
            assert(rest[k] == s[k]);
        }
        lemma_next_for_onto(rest);
        let d = digit_of(s.last());
        assert(is_id_continue(s[s.len() - 1]));
        assert(0 <= d < 64);
        assert(id_char(d) == s.last());
        let i = index_of(s);
        assert((i - 52) / 64 == index_of(rest) && (i - 52) % 64 == d) by (nonlinear_arith)
            requires
                i == 52 + 64 * index_of(rest) + d,
                0 <= d < 64,
        ;
        assert(next_for(i) =~= s);
    }
}

fn id_char_of(d: u8) -> (c: char)
    requires
        d < 64,
    ensures
        c == id_char(d as int),
{
    if d < 26 {
        (97u8 + d) as char
    } else if d < 52 {
        (39u8 + d) as char
    } else if d < 62 {
        (d - 4u8) as char
    } else if d == 62 {
        '_'
    } else {
        '-'
    }
}

/// Converts a number to the CSS identifier with that index.
pub fn index_to_css_identifier(i: u64) -> (id: String)
    ensures
        id@ == next_for(i as nat),
{
    let mut digits: Vec<char> = Vec::new();
    let mut n: u64 = i;
    let ghost mut tail: Seq<char> = Seq::empty();
    while n >= 52
        invariant
            next_for(i as nat) == next_for(n as nat) + tail,
            digits.len() == tail.len(),
            forall|k: int| 0 <= k < tail.len() ==> digits[k] == tail[tail.len() - 1 - k],
        decreases n,
    {
        let r: u64 = n - 52;
        let c = id_char_of((r % 64) as u8);
        proof {
            let p = (r / 64) as nat;
            assert(next_for(n as nat) == next_for(p).push(c));
            assert(next_for(p).push(c) + tail =~= next_for(p) + (seq![c] + tail));
            tail = seq![c] + tail;
        }
        digits.push(c);
        n = r / 64;
    }
    let mut id = String::new();
    id.push(id_char_of(n as u8));
    let mut k: usize = digits.len();
    while k > 0
        invariant
            k <= digits.len(),
            digits.len() == tail.len(),
            forall|k: int| 0 <= k < tail.len() ==> digits[k] == tail[tail.len() - 1 - k],
            id@ == next_for(n as nat) + tail.take(tail.len() - k),
            n < 52,
        decreases k,
    {
        k -= 1;
        id.push(digits[k]);
        proof {
            let t = tail.len() - k;
            assert(tail.take(t) =~= tail.take(t - 1).push(tail[t - 1]));
            assert(next_for(n as nat) + tail.take(t) =~= (next_for(n as nat) + tail.take(t - 1)).push(
                tail[t - 1],
            ));
        }
    }
    assert(tail.take(tail.len() as int) =~= tail);
    id
}

/// The languages of a list of compiled exclusion rules.
pub open spec fn languages(rules: Seq<Regex>) -> Seq<Set<Seq<char>>> {
    rules.map_values(|re: Regex| regex_language(re))
}

/// Whether some exclusion rule matches `id`.
pub open spec fn is_excluded(exclude: Seq<Set<Seq<char>>>, id: Seq<char>) -> bool {
    exists|k: int| 0 <= k < exclude.len() && (#[trigger] exclude[k]).contains(id)
}

/// What an `IdSet` stands for.
pub struct IdSetView {
    /// The index of the next candidate.
    pub index: nat,
    /// The language of each exclusion rule.
    pub exclude: Seq<Set<Seq<char>>>,
    /// The identifiers registered with `add`.
    pub seen: Set<Seq<char>>,
}

impl IdSetView {
    /// Whether the candidate with index `i` may be handed out: no exclusion
    /// rule matches it and it was not registered.
    pub open spec fn is_free(self, i: nat) -> bool {
        !is_excluded(self.exclude, next_for(i)) && !self.seen.contains(next_for(i))
    }

    /// Whether no candidate from the counter up to `limit` is free.
    pub open spec fn none_free_below(self, limit: nat) -> bool {
        forall|i: nat| self.index <= i < limit ==> !self.is_free(i)
    }

    /// Whether `j` is the first free candidate at or above the counter.
    pub open spec fn first_free(self, j: nat) -> bool {
        &&& self.index <= j
        &&& self.none_free_below(j)
        &&& self.is_free(j)
    }

    /// The first free candidate at or above the counter, if there is one
    /// below `u64::MAX`.
    pub open spec fn next(self) -> Option<nat> {
        if exists|j: nat| self.first_free(j) && j < u64::MAX {
            Some(choose|j: nat| self.first_free(j) && j < u64::MAX)
        } else {
            None
        }
    }

    /// There is one first free candidate at most.
    pub proof fn lemma_first_free(self, j: nat)
        requires
            self.first_free(j),
            j < u64::MAX,
        ensures
            self.next() == Some(j),
    {
        let k = choose|k: nat| self.first_free(k) && k < u64::MAX;
        if k < j {
            assert(!self.is_free(k));
        }
        if j < k {
            assert(!self.is_free(j));
        }
    }

    /// Where no candidate is free, there is no first one.
    pub proof fn lemma_none_free(self)
        requires
            self.none_free_below(u64::MAX as nat),
        ensures
            self.next() is None,
    {
    }

    /// Whether `id` is a candidate below the counter: `next_id` has passed
    /// it, and will not hand it out again.
    pub open spec fn is_spent(self, id: Seq<char>) -> bool {
        exists|i: nat| i < self.index && #[trigger] next_for(i) == id
    }
}

/// IdSet contains a set of unique ids and generates new unique ids.
pub struct IdSet {
    index: u64,
    exclude: Vec<Regex>,
    set: StringHashSet,
}

impl View for IdSet {
    type V = IdSetView;

    closed spec fn view(&self) -> IdSetView {
        IdSetView { index: self.index as nat, exclude: languages(self.exclude@), seen: self.set@ }
    }
}

impl IdSet {
    /// The counter never reaches past the last index.
    pub proof fn lemma_index_bound(&self)
        ensures
            self@.index <= u64::MAX,
    {
    }

    pub fn new(index: u64, exclude: Vec<Regex>) -> (s: Self)
        ensures
            s@.index == index,
            s@.exclude == languages(exclude@),
            s@.seen == Set::<Seq<char>>::empty(),
    {
        Self { index, exclude, set: StringHashSet::new() }
    }

    /// Adds an identifier to unique set.
    pub fn add(&mut self, id: &str)
        ensures
            final(self)@ == (IdSetView { seen: old(self)@.seen.insert(id@), ..old(self)@ }),
    {
        self.set.insert(String::from_str(id));
    }

    /// Whether some exclusion rule matches `id`.
    fn excludes(&self, id: &str) -> (b: bool)
        ensures
            b == is_excluded(self@.exclude, id@),
    {
        let mut k: usize = 0;
        while k < self.exclude.len()
            invariant
                k <= self.exclude.len(),
                forall|j: int| 0 <= j < k ==> !(#[trigger] self@.exclude[j]).contains(id@),
            decreases self.exclude.len() - k,
        {
            if self.exclude[k].is_match(id) {
                assert(self@.exclude[k as int].contains(id@));
                return true;
            }
            k += 1;
        }
        false
    }

    /// Whether a candidate may be handed out, where `excluded` says whether
    /// an exclusion rule matches it: it may, unless a rule matches it or it
    /// was registered.
    pub fn accepts(&self, candidate: &str, excluded: bool) -> (b: bool)
        ensures
            b == (!excluded && !self@.seen.contains(candidate@)),
    {
        !excluded && !self.set.contains(candidate)
    }

    /// Generates a new unique identifier: the first free candidate at or
    /// above the counter, which then stands behind it. Candidates have an
    /// index below `u64::MAX`; `None` says that none of those left is free.
    pub fn next_id(&mut self) -> (id: Option<String>)
        ensures
            match old(self)@.next() {
                Some(j) => {
                    &&& old(self)@.first_free(j)
                    &&& id matches Some(text)
                    &&& text@ == next_for(j)
                    &&& final(self)@ == (IdSetView { index: j + 1, ..old(self)@ })
                },
                None => {
                    &&& old(self)@.none_free_below(u64::MAX as nat)
                    &&& id is None
                    &&& final(self)@ == (IdSetView { index: u64::MAX as nat, ..old(self)@ })
                },
            },
    {
        while self.index < u64::MAX
            invariant
                self@.exclude == old(self)@.exclude,
                self@.seen == old(self)@.seen,
                self@.index >= old(self)@.index,
                old(self)@.none_free_below(self@.index),
            decreases u64::MAX - self.index,
        {
            let uid = index_to_css_identifier(self.index);
            self.index += 1;
            let excluded = self.excludes(uid.as_str());
            if self.accepts(uid.as_str(), excluded) {
                proof {
                    old(self)@.lemma_first_free((self.index - 1) as nat);
                }
                return Some(uid);
            }
        }
        proof {
            old(self)@.lemma_none_free();
        }
        None
    }
}

} // verus!
