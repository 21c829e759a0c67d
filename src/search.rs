use vstd::prelude::*;

use crate::outside::{compile_regex, is_infix, regex_compiles, regex_finds, regex_is_match, str_contains};

verus! {

/// A descriptive attribute of a head that a search can look at.
#[derive(Clone, Copy, Debug, PartialEq, Eq, Hash, Structural)]
pub enum SearchField {
    Description,
    Name,
    Vendor,
    Model,
    Serial,
}

/// The most fields a [`FieldSet`] can hold.
pub const FIELD_SET_CAPACITY: usize = 5;

/// The letter that stands for a field in the text form of a search.
pub open spec fn field_char(f: SearchField) -> char {
    match f {
        SearchField::Description => 'd',
        SearchField::Model => 'm',
        SearchField::Name => 'n',
        SearchField::Serial => 's',
        SearchField::Vendor => 'v',
    }
}

/// The field a letter stands for, if any.
pub open spec fn field_of_char(c: char) -> Option<SearchField> {
    if c == 'd' {
        Some(SearchField::Description)
    } else if c == 'm' {
        Some(SearchField::Model)
    } else if c == 'n' {
        Some(SearchField::Name)
    } else if c == 's' {
        Some(SearchField::Serial)
    } else if c == 'v' {
        Some(SearchField::Vendor)
    } else {
        None
    }
}

/// The declaration order of the fields, used as the default weight exponent.
pub open spec fn field_ordinal(f: SearchField) -> nat {
    match f {
        SearchField::Description => 0,
        SearchField::Name => 1,
        SearchField::Vendor => 2,
        SearchField::Model => 3,
        SearchField::Serial => 4,
    }
}

/// The five fields in their default order.
pub open spec fn default_fields() -> Seq<SearchField> {
    seq![
        SearchField::Description,
        SearchField::Name,
        SearchField::Vendor,
        SearchField::Model,
        SearchField::Serial,
    ]
}

impl SearchField {
    pub fn as_char(&self) -> (c: char)
        ensures
            c == field_char(*self),
    {
        match self {
            SearchField::Description => 'd',
            SearchField::Model => 'm',
            SearchField::Name => 'n',
            SearchField::Serial => 's',
            SearchField::Vendor => 'v',
        }
    }

    pub fn as_str(&self) -> (s: &'static str)
        ensures
            s@ == (match *self {
                SearchField::Description => "Description"@,
                SearchField::Model => "Model"@,
                SearchField::Name => "Name"@,
                SearchField::Serial => "Serial"@,
                SearchField::Vendor => "Vendor"@,
            }),
    {
        match self {
            SearchField::Description => "Description",
            SearchField::Model => "Model",
            SearchField::Name => "Name",
            SearchField::Serial => "Serial",
            SearchField::Vendor => "Vendor",
        }
    }

    pub fn from_char(c: char) -> (r: Option<SearchField>)
        ensures
            r == field_of_char(c),
    {
        match c {
            'd' => Some(SearchField::Description),
            'm' => Some(SearchField::Model),
            'n' => Some(SearchField::Name),
            's' => Some(SearchField::Serial),
            'v' => Some(SearchField::Vendor),
            _ => None,
        }
    }
}

/// Reading a field's letter gives the field back.
pub proof fn lemma_field_char_round_trip(f: SearchField)
    ensures
        field_of_char(field_char(f)) == Some(f),
{
}

/// Why a field could not be added to a [`FieldSet`].
#[derive(Clone, Copy, Debug, PartialEq, Eq, Structural)]
pub enum FieldSetError {
    /// The field is in the set already.
    AlreadyInside(SearchField),
    /// The set holds as many fields as it can.
    Full,
}

/// An ordered set of at most five distinct search fields.
#[derive(Debug)]
pub struct FieldSet {
    set: Vec<SearchField>,
}

impl Clone for FieldSet {
    fn clone(&self) -> (r: FieldSet)
        ensures
            r@ == self@,
    {
        proof {
            use_type_invariant(self);
        }
        let set = self.set.clone();
        proof {
            assert(set@ =~= self.set@);
        }
        FieldSet { set }
    }
}

impl PartialEq for FieldSet {
    fn eq(&self, o: &FieldSet) -> (r: bool)
        ensures
            r == (self@ == o@),
    {
        if self.set.len() != o.set.len() {
            return false;
        }
        let mut i: usize = 0;
        while i < self.set.len()
            invariant
                i <= self.set@.len() == o.set@.len(),
                forall|j: int| 0 <= j < i ==> self.set@[j] == o.set@[j],
            decreases self.set@.len() - i,
        {
            if self.set[i] != o.set[i] {
                return false;
            }
            i += 1;
        }
        proof {
            assert(self.set@ =~= o.set@);
        }
        true
    }
}

impl vstd::std_specs::cmp::PartialEqSpecImpl for FieldSet {
    open spec fn obeys_eq_spec() -> bool {
        true
    }

    open spec fn eq_spec(&self, o: &FieldSet) -> bool {
        self@ == o@
    }
}

impl Eq for FieldSet {

}

impl View for FieldSet {
    type V = Seq<SearchField>;

    closed spec fn view(&self) -> Seq<SearchField> {
        self.set@
    }
}

impl FieldSet {
    #[verifier::type_invariant]
    closed spec fn inv(self) -> bool {
        self.set@.len() <= FIELD_SET_CAPACITY && self.set@.no_duplicates()
    }

    /// What every field set satisfies.
    pub open spec fn valid(s: Seq<SearchField>) -> bool {
        s.len() <= FIELD_SET_CAPACITY && s.no_duplicates()
    }

    /// The empty set.
    pub fn empty() -> (r: FieldSet)
        ensures
            r@ == Seq::<SearchField>::empty(),
    {
        FieldSet { set: Vec::new() }
    }

    /// A set that holds just `field`.
    pub fn new(field: SearchField) -> (r: FieldSet)
        ensures
            r@ == seq![field],
    {
        let mut set = Vec::new();
        set.push(field);
        FieldSet { set }
    }

    /// The fields in their order.
    pub fn iter(&self) -> (r: Vec<SearchField>)
        ensures
            r@ == self@,
            FieldSet::valid(r@),
    {
        proof {
            use_type_invariant(self);
        }
        self.set.clone()
    }

    pub fn len(&self) -> (r: usize)
        ensures
            r == self@.len(),
            r <= FIELD_SET_CAPACITY,
    {
        proof {
            use_type_invariant(self);
        }
        self.set.len()
    }

    pub fn is_empty(&self) -> (r: bool)
        ensures
            r == (self@.len() == 0),
    {
        self.set.len() == 0
    }

    pub fn contains(&self, field: SearchField) -> (r: bool)
        ensures
            r == self@.contains(field),
    {
        let mut i: usize = 0;
        while i < self.set.len()
            invariant
                i <= self.set@.len(),
                forall|j: int| 0 <= j < i ==> self.set@[j] != field,
            decreases self.set@.len() - i,
        {
            if self.set[i] == field {
                return true;
            }
            i += 1;
        }
        false
    }

    /// Checks whether `field` could be inserted, without inserting it.
    fn check_insert(&self, field: SearchField) -> (r: Result<(), FieldSetError>)
        ensures
            r == FieldSet::insert_outcome(self@, field),
    {
        if self.set.len() >= FIELD_SET_CAPACITY {
            return Err(FieldSetError::Full);
        }
        if self.contains(field) {
            return Err(FieldSetError::AlreadyInside(field));
        }
        Ok(())
    }

    /// What inserting `field` into the fields `s` results in: a full set is
    /// reported before a duplicate.
    pub open spec fn insert_outcome(s: Seq<SearchField>, field: SearchField) -> Result<
        (),
        FieldSetError,
    > {
        if s.len() >= FIELD_SET_CAPACITY {
            Err(FieldSetError::Full)
        } else if s.contains(field) {
            Err(FieldSetError::AlreadyInside(field))
        } else {
            Ok(())
        }
    }

    /// Appends `field` unless the set is full or holds it already.
    pub fn try_insert(&mut self, field: SearchField) -> (r: Result<(), FieldSetError>)
        ensures
            r == FieldSet::insert_outcome(old(self)@, field),
            r is Ok ==> final(self)@ == old(self)@.push(field),
            r is Err ==> final(self)@ == old(self)@,
    {
        proof {
            use_type_invariant(&*self);
        }
        let c = self.check_insert(field);
        if c.is_err() {
            return c;
        }
        let mut v = self.set.clone();
        proof {
            assert(v@ =~= self.set@);
        }
        v.push(field);
        self.set = v;
        Ok(())
    }

    /// Consuming form of [`FieldSet::try_insert`].
    fn try_acc(self, field: SearchField) -> (r: Result<FieldSet, FieldSetError>)
        ensures
            FieldSet::insert_outcome(self@, field) is Ok ==> r == Ok::<FieldSet, FieldSetError>(
                r->Ok_0,
            ) && r->Ok_0@ == self@.push(field),
            FieldSet::insert_outcome(self@, field) is Err ==> r == Err::<FieldSet, FieldSetError>(
                FieldSet::insert_outcome(self@, field)->Err_0,
            ),
    {
        let mut s = self;
        match s.try_insert(field) {
            Ok(()) => Ok(s),
            Err(e) => Err(e),
        }
    }

    /// Builds a set from a list of fields, failing at the first field that
    /// cannot be inserted.
    pub fn try_from_fields(fields: &Vec<SearchField>) -> (r: Result<FieldSet, FieldSetError>)
        ensures
            FieldSet::valid(fields@) <==> r is Ok,
            r is Ok ==> r->Ok_0@ == fields@,
    {
        let mut acc = FieldSet::empty();
        let mut i: usize = 0;
        while i < fields.len()
            invariant
                i <= fields@.len(),
                acc@ == fields@.subrange(0, i as int),
                FieldSet::valid(acc@),
            decreases fields@.len() - i,
        {
            proof {
                use_type_invariant(&acc);
            }
            match acc.try_acc(fields[i]) {
                Ok(next) => {
                    acc = next;
                },
                Err(e) => {
                    proof {
                        if fields@.len() <= FIELD_SET_CAPACITY {
                            let k = choose|k: int|
                                0 <= k < i && fields@[k] == fields@[i as int];
                            assert(fields@[k] == fields@[i as int]);
                        }
                        assert(!fields@.no_duplicates()
                            || fields@.len() > FIELD_SET_CAPACITY);
                    }
                    return Err(e);
                },
            }
            i += 1;
            proof {
                assert(acc@ =~= fields@.subrange(0, i as int));
            }
        }
        proof {
            assert(fields@ =~= fields@.subrange(0, fields@.len() as int));
        }
        Ok(acc)
    }

    /// The weight of `field` within this set: two to the power of its position,
    /// or `None` where the set does not hold it.
    pub fn weight(&self, field: SearchField) -> (r: Option<u16>)
        ensures
            r is Some <==> self@.contains(field),
            r is Some ==> exists|i: int|
                0 <= i < self@.len() && self@[i] == field && r->Some_0 as int == pow2(i as nat),
    {
        proof {
            use_type_invariant(self);
        }
        let mut i: usize = 0;
        let mut w: u16 = 1;
        while i < self.set.len()
            invariant
                i <= self.set@.len() <= FIELD_SET_CAPACITY,
                w as int == pow2(i as nat),
                forall|j: int| 0 <= j < i ==> self.set@[j] != field,
            decreases self.set@.len() - i,
        {
            if self.set[i] == field {
                proof {
                    assert(self@[i as int] == field && w as int == pow2(i as nat));
                }
                return Some(w);
            }
            proof {
                lemma_pow2_small(i as nat);
            }
            w = w * 2;
            i += 1;
        }
        None
    }

    /// Replaces the contents with all five fields in their default order.
    pub fn fill_default(&mut self)
        ensures
            final(self)@ == default_fields(),
    {
        let mut set = Vec::new();
        set.push(SearchField::Description);
        set.push(SearchField::Name);
        set.push(SearchField::Vendor);
        set.push(SearchField::Model);
        set.push(SearchField::Serial);
        proof {
            assert(set@ =~= default_fields());
        }
        self.set = set;
    }
}

/// Two to the power of `n`.
pub open spec fn pow2(n: nat) -> int
    decreases n,
{
    if n == 0 {
        1
    } else {
        2 * pow2((n - 1) as nat)
    }
}

proof fn lemma_pow2_small(n: nat)
    requires
        n < FIELD_SET_CAPACITY,
    ensures
        pow2(n) <= 16,
        pow2(n + 1) == 2 * pow2(n),
{
    reveal_with_fuel(pow2, 5);
}

/// How the text of a search is compared.
#[derive(Clone, Copy, Debug, PartialEq, Eq, PartialOrd, Ord, Structural)]
pub enum SearchKind {
    Regex,
    Substring,
    Fulltext,
}

/// The character that introduces a kind in the text form.
pub open spec fn kind_char(k: SearchKind) -> char {
    match k {
        SearchKind::Regex => '/',
        SearchKind::Substring => '%',
        SearchKind::Fulltext => '=',
    }
}

/// The kind a character introduces, if any.
pub open spec fn kind_of_char(c: char) -> Option<SearchKind> {
    if c == '/' {
        Some(SearchKind::Regex)
    } else if c == '%' {
        Some(SearchKind::Substring)
    } else if c == '=' {
        Some(SearchKind::Fulltext)
    } else {
        None
    }
}

impl SearchKind {
    pub fn as_char(&self) -> (c: char)
        ensures
            c == kind_char(*self),
    {
        match self {
            SearchKind::Regex => '/',
            SearchKind::Substring => '%',
            SearchKind::Fulltext => '=',
        }
    }

    pub fn as_str(&self) -> (s: &'static str)
        ensures
            s@ == (match *self {
                SearchKind::Regex => "Regex"@,
                SearchKind::Substring => "Substring"@,
                SearchKind::Fulltext => "Fulltext"@,
            }),
    {
        match self {
            SearchKind::Regex => "Regex",
            SearchKind::Substring => "Substring",
            SearchKind::Fulltext => "Fulltext",
        }
    }

    pub fn from_char(c: char) -> (r: Option<SearchKind>)
        ensures
            r == kind_of_char(c),
    {
        match c {
            '/' => Some(SearchKind::Regex),
            '%' => Some(SearchKind::Substring),
            '=' => Some(SearchKind::Fulltext),
            _ => None,
        }
    }

    /// The kind's character as a one-character string.
    fn char_str(&self) -> (s: &'static str)
        ensures
            s@ == seq![kind_char(*self)],
    {
        match self {
            SearchKind::Regex => {
                proof {
                    reveal_strlit("/");
                }
                "/"
            },
            SearchKind::Substring => {
                proof {
                    reveal_strlit("%");
                }
                "%"
            },
            SearchKind::Fulltext => {
                proof {
                    reveal_strlit("=");
                }
                "="
            },
        }
    }
}

impl SearchField {
    /// The field's letter as a one-character string.
    fn char_str(&self) -> (s: &'static str)
        ensures
            s@ == seq![field_char(*self)],
    {
        match self {
            SearchField::Description => {
                proof {
                    reveal_strlit("d");
                }
                "d"
            },
            SearchField::Model => {
                proof {
                    reveal_strlit("m");
                }
                "m"
            },
            SearchField::Name => {
                proof {
                    reveal_strlit("n");
                }
                "n"
            },
            SearchField::Serial => {
                proof {
                    reveal_strlit("s");
                }
                "s"
            },
            SearchField::Vendor => {
                proof {
                    reveal_strlit("v");
                }
                "v"
            },
        }
    }
}

/// Whether a search needs one field or all of its fields to match.
#[derive(Clone, Copy, Debug, PartialEq, Eq, Structural)]
pub enum CompareMethod {
    /// At least one field has to match.
    AtleastOne,
    /// Every field has to match.
    Exact,
}

/// A regular expression together with the text it was compiled from.
#[derive(Debug)]
pub struct RegexPattern {
    source: String,
    pub(crate) re: regex::Regex,
}

impl View for RegexPattern {
    type V = Seq<char>;

    closed spec fn view(&self) -> Seq<char> {
        self.source@
    }
}

impl RegexPattern {
    /// Compiles `source`.
    pub fn new(source: &str) -> (r: Result<RegexPattern, regex::Error>)
        ensures
            r is Ok <==> regex_compiles(source@),
            r is Ok ==> r->Ok_0@ == source@,
    {
        match compile_regex(source) {
            Ok(re) => Ok(RegexPattern { source: source.to_owned(), re }),
            Err(e) => Err(e),
        }
    }

    pub fn as_str(&self) -> (s: &str)
        ensures
            s@ == self@,
    {
        self.source.as_str()
    }
}

/// Weight of a regex match.
pub const REGEX_WEIGHT: u64 = 1000;

/// Weight of a full-text match, and the most a substring match can weigh.
pub const FULLTEXT_WEIGHT: u64 = 1024000;

/// The text a search compares with.
pub enum SearchPattern {
    Regex(RegexPattern),
    Substring(String),
    Fulltext(String),
}

/// The length of a text in bytes, as `str::len` gives it.
pub open spec fn byte_len(s: Seq<char>) -> nat {
    (vstd::utf8::encode_utf8(s).len() as usize) as nat
}

/// The weight of a substring match of a needle of `n` bytes in a text of `t`
/// bytes: the full-text weight scaled by `n / t`, rounded down.
pub open spec fn substring_weight(n: nat, t: nat) -> nat {
    if t == 0 {
        0
    } else if n > t {
        FULLTEXT_WEIGHT as nat
    } else {
        (FULLTEXT_WEIGHT as nat * n) / t
    }
}

impl SearchPattern {
    /// The pattern's literal text.
    pub open spec fn text(&self) -> Seq<char> {
        match self {
            SearchPattern::Regex(r) => r@,
            SearchPattern::Substring(s) => s@,
            SearchPattern::Fulltext(s) => s@,
        }
    }

    /// The kind of comparison the pattern performs.
    pub open spec fn kind(&self) -> SearchKind {
        match self {
            SearchPattern::Regex(_) => SearchKind::Regex,
            SearchPattern::Substring(_) => SearchKind::Substring,
            SearchPattern::Fulltext(_) => SearchKind::Fulltext,
        }
    }

    /// Whether the pattern matches `text`.
    pub open spec fn matches_spec(&self, text: Seq<char>) -> bool {
        match self {
            SearchPattern::Regex(r) => regex_finds(r@, text),
            SearchPattern::Substring(s) => is_infix(s@, text),
            SearchPattern::Fulltext(s) => text == s@,
        }
    }

    /// How much a match of the pattern on `text` weighs; zero without a match.
    pub open spec fn weight_spec(&self, text: Seq<char>) -> nat {
        if !self.matches_spec(text) {
            0
        } else {
            match self {
                SearchPattern::Regex(_) => REGEX_WEIGHT as nat,
                SearchPattern::Substring(s) => substring_weight(
                    byte_len(s@),
                    byte_len(text),
                ),
                SearchPattern::Fulltext(_) => FULLTEXT_WEIGHT as nat,
            }
        }
    }

    /// Compares `text` with the pattern: whether it matches, and how well.
    /// Higher weights are better.
    pub fn matches(&self, text: &str) -> (r: (bool, u64))
        ensures
            r.0 == self.matches_spec(text@),
            r.1 as nat == self.weight_spec(text@),
            r.1 <= FULLTEXT_WEIGHT,
    {
        match self {
            SearchPattern::Regex(re) => {
                if regex_is_match(re, text) {
                    (true, REGEX_WEIGHT)
                } else {
                    (false, 0)
                }
            },
            SearchPattern::Substring(s) => {
                if !str_contains(text, s.as_str()) {
                    return (false, 0);
                }
                let n = s.as_str().len();
                let t = text.len();

                if t == 0 {
                    (true, 0)
                } else if n > t {
                    (true, FULLTEXT_WEIGHT)
                } else {
                    let w: u128 = (FULLTEXT_WEIGHT as u128) * (n as u128) / (t as u128);
                    proof {
                        assert((FULLTEXT_WEIGHT as nat * (n as nat)) / (t as nat) <= FULLTEXT_WEIGHT as nat)
                            by (nonlinear_arith)
                            requires
                                n <= t,
                                t > 0,
                        ;
                    }
                    assert(w as nat == substring_weight(n as nat, t as nat));
                    (true, w as u64)
                }
            },
            SearchPattern::Fulltext(s) => {
                let owned = text.to_owned();
                if owned == *s {
                    (true, FULLTEXT_WEIGHT)
                } else {
                    (false, 0)
                }
            },
        }
    }

    pub fn as_str(&self) -> (s: &str)
        ensures
            s@ == self.text(),
    {
        match self {
            SearchPattern::Regex(re) => re.as_str(),
            SearchPattern::Substring(s) => s.as_str(),
            SearchPattern::Fulltext(s) => s.as_str(),
        }
    }

    pub fn kind_of(&self) -> (k: SearchKind)
        ensures
            k == self.kind(),
    {
        match self {
            SearchPattern::Regex(_) => SearchKind::Regex,
            SearchPattern::Substring(_) => SearchKind::Substring,
            SearchPattern::Fulltext(_) => SearchKind::Fulltext,
        }
    }
}

/// A search over a set of fields of a head with one pattern.
pub struct SingleSearch {
    pub fields: FieldSet,
    pub pattern: SearchPattern,
    pub method: CompareMethod,
}

/// The letters of a list of fields.
pub open spec fn fields_text(fs: Seq<SearchField>) -> Seq<char> {
    fs.map_values(|f: SearchField| field_char(f))
}

impl SingleSearch {
    pub fn new(fields: FieldSet, pattern: SearchPattern, method: CompareMethod) -> (r: SingleSearch)
        ensures
            r.fields@ == fields@,
            r.pattern == pattern,
            r.method == method,
    {
        SingleSearch { fields, pattern, method }
    }

    /// The text form: the fields' letters where every field has to match,
    /// then the kind's character, then the pattern.
    pub open spec fn text_spec(&self) -> Seq<char> {
        (if self.method == CompareMethod::Exact {
            fields_text(self.fields@)
        } else {
            Seq::empty()
        }) + seq![kind_char(self.pattern.kind())] + self.pattern.text()
    }

    pub fn kind(&self) -> (k: SearchKind)
        ensures
            k == self.pattern.kind(),
    {
        self.pattern.kind_of()
    }

    /// Writes the search in its text form.
    pub fn to_string(&self) -> (r: String)
        ensures
            r@ == self.text_spec(),
    {
        let mut r = String::new();
        if self.method == CompareMethod::Exact {
            let fs = self.fields.iter();
            let mut i: usize = 0;
            while i < fs.len()
                invariant
                    i <= fs@.len(),
                    fs@ == self.fields@,
                    r@ == fields_text(fs@.subrange(0, i as int)),
                decreases fs@.len() - i,
            {
                r.append(fs[i].char_str());
                proof {
                    assert(fields_text(fs@.subrange(0, i + 1)) =~= fields_text(
                        fs@.subrange(0, i as int),
                    ) + seq![field_char(fs@[i as int])]);
                }
                i += 1;
            }
            proof {
                assert(fs@.subrange(0, fs@.len() as int) =~= fs@);
            }
        }
        let k = self.pattern.kind_of();
        r.append(k.char_str());
        r.append(self.pattern.as_str());
        proof {
            if self.method != CompareMethod::Exact {
                assert(r@ =~= self.text_spec());
            } else {
                assert(r@ =~= self.text_spec());
            }
        }
        r
    }
}

/// Why a text is not a search.
#[derive(Debug, PartialEq)]
pub enum ParseSingleSearchError {
    /// A field letter could not be added to the field set.
    FieldSet(FieldSetError),
    /// The pattern of a regex search does not compile.
    Regex(regex::Error),
    /// No kind character follows the field letters.
    MissingSearchKind,
}

/// The position of the first character of `s`, from `i` on, that is not a
/// field letter.
pub open spec fn field_letters_end(s: Seq<char>, i: nat) -> nat
    decreases s.len() - i,
{
    if i < s.len() && field_of_char(s[i as int]) is Some {
        field_letters_end(s, i + 1)
    } else {
        i
    }
}

/// The fields named by the leading letters of `s`.
pub open spec fn parsed_fields(s: Seq<char>) -> Seq<SearchField> {
    s.subrange(0, field_letters_end(s, 0) as int).map_values(
        |c: char| field_of_char(c)->Some_0,
    )
}

/// The first error met when inserting the fields `fs`, from position `i` on,
/// one by one into a set that holds those before `i`.
pub open spec fn first_insert_error(fs: Seq<SearchField>, i: nat) -> Option<FieldSetError>
    decreases fs.len() - i,
{
    if i >= fs.len() {
        None
    } else {
        match FieldSet::insert_outcome(fs.subrange(0, i as int), fs[i as int]) {
            Err(e) => Some(e),
            Ok(_) => first_insert_error(fs, i + 1),
        }
    }
}

/// The kind announced right after the field letters, if any.
pub open spec fn parsed_kind(s: Seq<char>) -> Option<SearchKind> {
    let k = field_letters_end(s, 0);
    if k < s.len() {
        kind_of_char(s[k as int])
    } else {
        None
    }
}

/// The pattern text: everything after the kind character.
pub open spec fn parsed_pattern(s: Seq<char>) -> Seq<char> {
    s.subrange(field_letters_end(s, 0) as int + 1, s.len() as int)
}

/// Whether `s` is the text form of a search.
pub open spec fn search_parses(s: Seq<char>) -> bool {
    &&& first_insert_error(parsed_fields(s), 0) is None
    &&& parsed_kind(s) is Some
    &&& parsed_kind(s) == Some(SearchKind::Regex) ==> regex_compiles(parsed_pattern(s))
}

proof fn lemma_field_letters_end(s: Seq<char>, i: nat)
    requires
        i <= s.len(),
    ensures
        i <= field_letters_end(s, i) <= s.len(),
        forall|j: int|
            i <= j < field_letters_end(s, i) ==> field_of_char(#[trigger] s[j]) is Some,
        field_letters_end(s, i) < s.len() ==> field_of_char(s[field_letters_end(s, i) as int]) is None,
    decreases s.len() - i,
{
    if i < s.len() && field_of_char(s[i as int]) is Some {
        lemma_field_letters_end(s, i + 1);
    }
}

impl SingleSearch {
    /// Reads a search from its text form: optional field letters, a kind
    /// character, then the pattern. Without field letters the search looks at
    /// every field and one match suffices; with them, all named fields have
    /// to match.
    pub fn from_str(text: &str) -> (r: Result<SingleSearch, ParseSingleSearchError>)
        ensures
            r is Ok <==> search_parses(text@),
            first_insert_error(parsed_fields(text@), 0) matches Some(e) ==> r == Err::<
                SingleSearch,
                ParseSingleSearchError,
            >(ParseSingleSearchError::FieldSet(e)),
            first_insert_error(parsed_fields(text@), 0) is None && parsed_kind(text@) is None ==> r
                == Err::<SingleSearch, ParseSingleSearchError>(
                ParseSingleSearchError::MissingSearchKind,
            ),
            first_insert_error(parsed_fields(text@), 0) is None && parsed_kind(text@) == Some(
                SearchKind::Regex,
            ) && !regex_compiles(parsed_pattern(text@)) ==> r matches Err(
                ParseSingleSearchError::Regex(_),
            ),
            r matches Ok(ss) ==> {
                &&& ss.pattern.kind() == parsed_kind(text@)->Some_0
                &&& ss.pattern.text() == parsed_pattern(text@)
                &&& parsed_fields(text@).len() == 0 ==> ss.fields@ == default_fields()
                    && ss.method == CompareMethod::AtleastOne
                &&& parsed_fields(text@).len() > 0 ==> ss.fields@ == parsed_fields(text@)
                    && ss.method == CompareMethod::Exact
            },
    {
        let ghost s = text@;
        let ghost k = field_letters_end(s, 0);
        let ghost fs = parsed_fields(s);
        proof {
            lemma_field_letters_end(s, 0);
        }
        let n = text.unicode_len();
        let mut fieldset = FieldSet::empty();
        let mut i: usize = 0;
        let mut at_end = false;
        while !at_end
            invariant
                n == s.len(),
                text@ == s,
                fs == parsed_fields(s),
                k == field_letters_end(s, 0),
                i <= k,
                at_end ==> i == k,
                k <= s.len(),
                forall|j: int| 0 <= j < k ==> field_of_char(#[trigger] s[j]) is Some,
                k < s.len() ==> field_of_char(s[k as int]) is None,
                fs.len() == k,
                forall|j: int| 0 <= j < k ==> fs[j] == field_of_char(#[trigger] s[j])->Some_0,
                fieldset@ == fs.subrange(0, i as int),
                first_insert_error(fs, 0) == first_insert_error(fs, i as nat),
            decreases n - i + (if at_end { 0int } else { 1int }),
        {
            if i >= n {
                at_end = true;
            } else {
                match SearchField::from_char(text.get_char(i)) {
                    None => {
                        at_end = true;
                    },
                    Some(f) => {
                        proof {
                            assert(i < k);
                            assert(fs[i as int] == f);
                        }
                        match fieldset.try_insert(f) {
                            Ok(()) => {},
                            Err(e) => {
                                proof {
                                    assert(first_insert_error(fs, i as nat) == Some(e));
                                }
                                return Err(ParseSingleSearchError::FieldSet(e));
                            },
                        }
                        i += 1;
                        proof {
                            assert(fieldset@ =~= fs.subrange(0, i as int));
                        }
                    },
                }
            }
        }
        proof {
            assert(i == k);
            assert(fieldset@ =~= fs);
        }
        let mut method = CompareMethod::Exact;
        if fieldset.is_empty() {
            fieldset.fill_default();
            method = CompareMethod::AtleastOne;
        }
        if i >= n {
            return Err(ParseSingleSearchError::MissingSearchKind);
        }
        let kind = match SearchKind::from_char(text.get_char(i)) {
            Some(kind) => kind,
            None => {
                return Err(ParseSingleSearchError::MissingSearchKind);
            },
        };
        let rest = text.substring_char(i + 1, n).to_owned();
        let pattern = match kind {
            SearchKind::Regex => match RegexPattern::new(rest.as_str()) {
                Ok(re) => SearchPattern::Regex(re),
                Err(e) => {
                    return Err(ParseSingleSearchError::Regex(e));
                },
            },
            SearchKind::Substring => SearchPattern::Substring(rest),
            SearchKind::Fulltext => SearchPattern::Fulltext(rest),
        };
        Ok(SingleSearch { fields: fieldset, pattern, method })
    }
}

/// Reading the text form of a search and writing the result gives the text
/// back, for every text that reads as a search.
pub proof fn lemma_search_text_round_trip(s: Seq<char>, ss: SingleSearch)
    requires
        search_parses(s),
        ss.pattern.kind() == parsed_kind(s)->Some_0,
        ss.pattern.text() == parsed_pattern(s),
        parsed_fields(s).len() == 0 ==> ss.fields@ == default_fields() && ss.method
            == CompareMethod::AtleastOne,
        parsed_fields(s).len() > 0 ==> ss.fields@ == parsed_fields(s) && ss.method
            == CompareMethod::Exact,
    ensures
        ss.text_spec() == s,
{
    let k = field_letters_end(s, 0);
    lemma_field_letters_end(s, 0);
    let prefix = if ss.method == CompareMethod::Exact {
        fields_text(ss.fields@)
    } else {
        Seq::<char>::empty()
    };
    assert(prefix =~= s.subrange(0, k as int)) by {
        if k > 0 {
            assert forall|j: int| 0 <= j < k implies #[trigger] prefix[j] == s[j] by {
                assert(field_of_char(s[j]) is Some);
            }
        }
    }
    assert(kind_char(kind_of_char(s[k as int])->Some_0) == s[k as int]);
    assert(s =~= s.subrange(0, k as int) + seq![s[k as int]] + s.subrange(k as int + 1, s.len() as int));
}

/// The texts of a head that searches look at, one per field.
pub open spec fn query_texts(
    description: Seq<char>,
    model: Seq<char>,
    name: Seq<char>,
    serial: Seq<char>,
    vendor: Seq<char>,
) -> spec_fn(SearchField) -> Seq<char> {
    |f: SearchField|
        match f {
            SearchField::Description => description,
            SearchField::Model => model,
            SearchField::Name => name,
            SearchField::Serial => serial,
            SearchField::Vendor => vendor,
        }
}

/// The fields that count as satisfied among the first `n` fields, with their
/// weights. With `AtleastOne` every matching field counts; with `Exact` only
/// the matching fields before the first one that does not match.
pub open spec fn satisfied_prefix(
    p: &SearchPattern,
    method: CompareMethod,
    fields: Seq<SearchField>,
    texts: spec_fn(SearchField) -> Seq<char>,
    n: nat,
) -> Seq<(SearchField, u64)>
    decreases n,
{
    if n == 0 {
        Seq::empty()
    } else {
        let prev = satisfied_prefix(p, method, fields, texts, (n - 1) as nat);
        let f = fields[n - 1];
        let hit = p.matches_spec(texts(f));
        let keep = match method {
            CompareMethod::AtleastOne => hit,
            CompareMethod::Exact => hit && prev.len() == n - 1,
        };
        if keep {
            prev.push((f, p.weight_spec(texts(f)) as u64))
        } else {
            prev
        }
    }
}

/// The satisfied fields of a single search over the given texts.
pub open spec fn single_satisfied(ss: &SingleSearch, texts: spec_fn(SearchField) -> Seq<char>) -> Seq<
    (SearchField, u64),
> {
    satisfied_prefix(&ss.pattern, ss.method, ss.fields@, texts, ss.fields@.len())
}

/// The fields of a list of satisfied fields.
pub open spec fn satisfied_names(sat: Seq<(SearchField, u64)>) -> Seq<SearchField> {
    sat.map_values(|p: (SearchField, u64)| p.0)
}

/// Whether the satisfied fields make a search succeed.
pub open spec fn satisfied_ok(
    method: CompareMethod,
    fields: Seq<SearchField>,
    sat: Seq<(SearchField, u64)>,
) -> bool {
    match method {
        CompareMethod::AtleastOne => sat.len() > 0,
        CompareMethod::Exact => satisfied_names(sat) == fields,
    }
}

/// The specificity of the first `n` satisfied fields: each weight times two
/// to the power of `4 - i`, for the satisfied field at index `i`.
pub open spec fn specificity_sum(sat: Seq<(SearchField, u64)>, n: nat) -> nat
    decreases n,
{
    if n == 0 {
        0
    } else {
        specificity_sum(sat, (n - 1) as nat) + sat[n - 1].1 as nat * pow2(
            (4 - (n - 1)) as nat,
        ) as nat
    }
}

/// Whether a single search succeeds on the given texts.
pub open spec fn single_ok(ss: &SingleSearch, texts: spec_fn(SearchField) -> Seq<char>) -> bool {
    satisfied_ok(ss.method, ss.fields@, single_satisfied(ss, texts))
}

/// The specificity of a single search on the given texts.
pub open spec fn single_specificity(ss: &SingleSearch, texts: spec_fn(SearchField) -> Seq<char>) -> nat {
    let sat = single_satisfied(ss, texts);
    specificity_sum(sat, sat.len())
}

proof fn lemma_satisfied_prefix_bounds(
    p: &SearchPattern,
    method: CompareMethod,
    fields: Seq<SearchField>,
    texts: spec_fn(SearchField) -> Seq<char>,
    n: nat,
)
    requires
        n <= fields.len(),
    ensures
        satisfied_prefix(p, method, fields, texts, n).len() <= n,
        forall|i: int|
            0 <= i < satisfied_prefix(p, method, fields, texts, n).len() ==> (
            #[trigger] satisfied_prefix(p, method, fields, texts, n)[i]).1 <= FULLTEXT_WEIGHT,
    decreases n,
{
    if n > 0 {
        lemma_satisfied_prefix_bounds(p, method, fields, texts, (n - 1) as nat);
        let t = texts(fields[n - 1]);
        assert(p.weight_spec(t) <= FULLTEXT_WEIGHT) by {
            if p.matches_spec(t) {
                match p {
                    SearchPattern::Substring(s) => {
                        let (a, b) = (byte_len(s@), byte_len(t));
                        if b > 0 && a <= b {
                            assert((FULLTEXT_WEIGHT as nat * a) / b <= FULLTEXT_WEIGHT as nat)
                                by (nonlinear_arith)
                                requires
                                    a <= b,
                                    b > 0,
                            ;
                        }
                    },
                    _ => {},
                }
            }
        }
    }
}

/// What a single search found on one head.
#[derive(Debug)]
pub struct SingleSearchResult {
    method: CompareMethod,
    fields: Vec<SearchField>,
    satisfied_fields: Vec<(SearchField, u64)>,
}

impl SingleSearchResult {
    #[verifier::type_invariant]
    closed spec fn inv(self) -> bool {
        &&& self.satisfied_fields@.len() <= FIELD_SET_CAPACITY
        &&& forall|i: int|
            0 <= i < self.satisfied_fields@.len() ==> (#[trigger] self.satisfied_fields@[i]).1
                <= FULLTEXT_WEIGHT
    }

    pub closed spec fn method_spec(&self) -> CompareMethod {
        self.method
    }

    pub closed spec fn fields_spec(&self) -> Seq<SearchField> {
        self.fields@
    }

    /// The satisfied fields with their weights, in the search's field order.
    pub closed spec fn satisfied_spec(&self) -> Seq<(SearchField, u64)> {
        self.satisfied_fields@
    }

    pub open spec fn is_ok_spec(&self) -> bool {
        satisfied_ok(self.method_spec(), self.fields_spec(), self.satisfied_spec())
    }

    pub open spec fn specificity_spec(&self) -> nat {
        specificity_sum(self.satisfied_spec(), self.satisfied_spec().len())
    }

    /// Whether the search succeeded: one satisfied field for `AtleastOne`,
    /// every field in order for `Exact`.
    pub fn is_ok(&self) -> (r: bool)
        ensures
            r == self.is_ok_spec(),
    {
        match self.method {
            CompareMethod::AtleastOne => self.satisfied_fields.len() > 0,
            CompareMethod::Exact => {
                let ghost sat = satisfied_names(self.satisfied_fields@);
                if self.satisfied_fields.len() != self.fields.len() {
                    proof {
                        assert(sat.len() != self.fields@.len());
                    }
                    return false;
                }
                let mut i: usize = 0;
                while i < self.fields.len()
                    invariant
                        i <= self.fields@.len() == self.satisfied_fields@.len(),
                        sat == satisfied_names(self.satisfied_fields@),
                        self.method == CompareMethod::Exact,
                        forall|j: int| 0 <= j < i ==> sat[j] == self.fields@[j],
                    decreases self.fields@.len() - i,
                {
                    if self.satisfied_fields[i].0 != self.fields[i] {
                        proof {
                            assert(sat[i as int] == self.satisfied_fields@[i as int].0);
                            assert(sat[i as int] != self.fields@[i as int]);
                            assert(sat != self.fields@);
                        }
                        return false;
                    }
                    i += 1;
                }
                proof {
                    assert(sat =~= self.fields@);
                }
                true
            },
        }
    }

    /// How specifically the search matched: the sum over the satisfied fields
    /// of each weight times two to the power of `4 - i`, where `i` is the
    /// field's index among the satisfied ones.
    pub fn specificity(&self) -> (r: u64)
        ensures
            r as nat == self.specificity_spec(),
            r <= 5 * 16 * FULLTEXT_WEIGHT,
    {
        proof {
            use_type_invariant(self);
        }
        let mut acc: u64 = 0;
        let mut i: usize = 0;
        let mut factor: u64 = 16;
        proof {
            reveal_with_fuel(pow2, 5);
        }
        while i < self.satisfied_fields.len()
            invariant
                i <= self.satisfied_fields@.len() <= FIELD_SET_CAPACITY,
                acc as nat == specificity_sum(self.satisfied_fields@, i as nat),
                acc <= i * 16 * FULLTEXT_WEIGHT,
                i < FIELD_SET_CAPACITY ==> factor as int == pow2((4 - i) as nat),
                forall|j: int|
                    0 <= j < self.satisfied_fields@.len() ==> (
                    #[trigger] self.satisfied_fields@[j]).1 <= FULLTEXT_WEIGHT,
            decreases self.satisfied_fields@.len() - i,
        {
            let w = self.satisfied_fields[i].1;
            proof {
                reveal_with_fuel(pow2, 5);
                assert(factor <= 16);
                assert(w * factor <= 16 * FULLTEXT_WEIGHT) by (nonlinear_arith)
                    requires
                        w <= FULLTEXT_WEIGHT,
                        factor <= 16,
                ;
            }
            acc = acc + w * factor;
            factor = factor / 2;
            i += 1;
            proof {
                reveal_with_fuel(pow2, 5);
            }
        }
        acc
    }
}

/// A single search bound to the texts of one head.
pub struct SingleQuery<'a> {
    search: &'a SingleSearch,
    description: &'a str,
    model: &'a str,
    name: &'a str,
    serial: &'a str,
    vendor: &'a str,
}

impl<'a> SingleQuery<'a> {
    pub closed spec fn search_spec(&self) -> &'a SingleSearch {
        self.search
    }

    /// The texts the query compares with.
    pub closed spec fn texts(&self) -> spec_fn(SearchField) -> Seq<char> {
        query_texts(self.description@, self.model@, self.name@, self.serial@, self.vendor@)
    }

    /// A query of `search` on empty texts.
    pub fn new(search: &'a SingleSearch) -> (r: SingleQuery<'a>)
        ensures
            r.search_spec() == search,
            r.texts() == query_texts(Seq::empty(), Seq::empty(), Seq::empty(), Seq::empty(), Seq::empty()),
    {
        proof {
            reveal_strlit("");
        }
        SingleQuery { search, description: "", model: "", name: "", serial: "", vendor: "" }
    }

    /// Sets every text at once.
    pub fn texts_of(
        search: &'a SingleSearch,
        description: &'a str,
        model: &'a str,
        name: &'a str,
        serial: &'a str,
        vendor: &'a str,
    ) -> (r: SingleQuery<'a>)
        ensures
            r.search_spec() == search,
            r.texts() == query_texts(description@, model@, name@, serial@, vendor@),
    {
        SingleQuery { search, description, model, name, serial, vendor }
    }

    pub fn description(self, description: &'a str) -> (r: SingleQuery<'a>)
        ensures
            r.search_spec() == self.search_spec(),
            forall|f: SearchField|
                (#[trigger] (r.texts())(f)) == if f == SearchField::Description {
                    description@
                } else {
                    (self.texts())(f)
                },
    {
        SingleQuery { description, ..self }
    }

    pub fn model(self, model: &'a str) -> (r: SingleQuery<'a>)
        ensures
            r.search_spec() == self.search_spec(),
            forall|f: SearchField|
                (#[trigger] (r.texts())(f)) == if f == SearchField::Model {
                    model@
                } else {
                    (self.texts())(f)
                },
    {
        SingleQuery { model, ..self }
    }

    pub fn name(self, name: &'a str) -> (r: SingleQuery<'a>)
        ensures
            r.search_spec() == self.search_spec(),
            forall|f: SearchField|
                (#[trigger] (r.texts())(f)) == if f == SearchField::Name {
                    name@
                } else {
                    (self.texts())(f)
                },
    {
        SingleQuery { name, ..self }
    }

    pub fn serial(self, serial: &'a str) -> (r: SingleQuery<'a>)
        ensures
            r.search_spec() == self.search_spec(),
            forall|f: SearchField|
                (#[trigger] (r.texts())(f)) == if f == SearchField::Serial {
                    serial@
                } else {
                    (self.texts())(f)
                },
    {
        SingleQuery { serial, ..self }
    }

    pub fn vendor(self, vendor: &'a str) -> (r: SingleQuery<'a>)
        ensures
            r.search_spec() == self.search_spec(),
            forall|f: SearchField|
                (#[trigger] (r.texts())(f)) == if f == SearchField::Vendor {
                    vendor@
                } else {
                    (self.texts())(f)
                },
    {
        SingleQuery { vendor, ..self }
    }

    fn text_for(&self, f: SearchField) -> (t: &'a str)
        ensures
            t@ == (self.texts())(f),
    {
        match f {
            SearchField::Description => self.description,
            SearchField::Model => self.model,
            SearchField::Name => self.name,
            SearchField::Serial => self.serial,
            SearchField::Vendor => self.vendor,
        }
    }

    /// Runs the search over its fields in order.
    pub fn run(&self) -> (r: SingleSearchResult)
        ensures
            r.method_spec() == self.search_spec().method,
            r.fields_spec() == self.search_spec().fields@,
            r.satisfied_spec() == single_satisfied(self.search_spec(), self.texts()),
    {
        let ss = self.search;
        let fields = ss.fields.iter();
        let ghost texts = self.texts();
        let mut satisfied: Vec<(SearchField, u64)> = Vec::new();
        let mut matches = true;
        let mut i: usize = 0;
        while i < fields.len()
            invariant
                i <= fields@.len(),
                fields@ == ss.fields@,
                FieldSet::valid(fields@),
                texts == self.texts(),
                satisfied@ == satisfied_prefix(&ss.pattern, ss.method, ss.fields@, texts, i as nat),
                ss.method == CompareMethod::Exact ==> (matches <==> satisfied@.len() == i),
            decreases fields@.len() - i,
        {
            let f = fields[i];
            let (b, w) = ss.pattern.matches(self.text_for(f));
            matches = match ss.method {
                CompareMethod::AtleastOne => b,
                CompareMethod::Exact => matches && b,
            };
            proof {
                lemma_satisfied_prefix_bounds(&ss.pattern, ss.method, ss.fields@, texts, i as nat);
            }
            if matches {
                satisfied.push((f, w));
            }
            i += 1;
        }
        proof {
            lemma_satisfied_prefix_bounds(&ss.pattern, ss.method, ss.fields@, texts, i as nat);
        }
        SingleSearchResult { method: ss.method, fields, satisfied_fields: satisfied }
    }
}

/// A list of single searches that all have to succeed.
pub struct MultiSearch {
    pub searches: Vec<SingleSearch>,
}

/// What each search of a [`MultiSearch`] found, in order.
#[derive(Debug)]
pub struct MultiSearchResult {
    pub searches: Vec<SingleSearchResult>,
}

/// The sum of the specificities of the first `n` results.
pub open spec fn results_specificity(rs: Seq<SingleSearchResult>, n: nat) -> nat
    decreases n,
{
    if n == 0 {
        0
    } else {
        results_specificity(rs, (n - 1) as nat) + rs[n - 1].specificity_spec()
    }
}

/// Clamps a sum to what a `u64` holds.
pub open spec fn saturate(n: nat) -> nat {
    if n > u64::MAX {
        u64::MAX as nat
    } else {
        n
    }
}

impl MultiSearchResult {
    pub open spec fn is_ok_spec(&self) -> bool {
        forall|i: int| 0 <= i < self.searches@.len() ==> (#[trigger] self.searches@[i]).is_ok_spec()
    }

    pub open spec fn specificity_spec(&self) -> nat {
        saturate(results_specificity(self.searches@, self.searches@.len()))
    }

    /// True when every inner search succeeded.
    pub fn is_ok(&self) -> (r: bool)
        ensures
            r == self.is_ok_spec(),
    {
        let mut i: usize = 0;
        while i < self.searches.len()
            invariant
                i <= self.searches@.len(),
                forall|j: int| 0 <= j < i ==> (#[trigger] self.searches@[j]).is_ok_spec(),
            decreases self.searches@.len() - i,
        {
            if !self.searches[i].is_ok() {
                return false;
            }
            i += 1;
        }
        true
    }

    /// The sum of the inner specificities, saturated at `u64::MAX`.
    pub fn specificity(&self) -> (r: u64)
        ensures
            r as nat == self.specificity_spec(),
    {
        let mut acc: u64 = 0;
        let mut i: usize = 0;
        while i < self.searches.len()
            invariant
                i <= self.searches@.len(),
                acc as nat == saturate(results_specificity(self.searches@, i as nat)),
            decreases self.searches@.len() - i,
        {
            let x = self.searches[i].specificity();
            acc = acc.saturating_add(x);
            i += 1;
        }
        acc
    }
}

impl MultiSearch {
    pub fn new(searches: Vec<SingleSearch>) -> (r: MultiSearch)
        ensures
            r.searches@ == searches@,
    {
        MultiSearch { searches }
    }

    /// Runs every search on the same texts.
    pub fn run(
        &self,
        description: &str,
        model: &str,
        name: &str,
        serial: &str,
        vendor: &str,
    ) -> (r: MultiSearchResult)
        ensures
            r.searches@.len() == self.searches@.len(),
            forall|i: int|
                0 <= i < self.searches@.len() ==> {
                    &&& (#[trigger] r.searches@[i]).method_spec() == self.searches@[i].method
                    &&& r.searches@[i].fields_spec() == self.searches@[i].fields@
                    &&& r.searches@[i].satisfied_spec() == single_satisfied(
                        &self.searches@[i],
                        query_texts(description@, model@, name@, serial@, vendor@),
                    )
                },
    {
        let mut out: Vec<SingleSearchResult> = Vec::new();
        let mut i: usize = 0;
        while i < self.searches.len()
            invariant
                i <= self.searches@.len(),
                out@.len() == i,
                forall|j: int|
                    0 <= j < i ==> {
                        &&& (#[trigger] out@[j]).method_spec() == self.searches@[j].method
                        &&& out@[j].fields_spec() == self.searches@[j].fields@
                        &&& out@[j].satisfied_spec() == single_satisfied(
                            &self.searches@[j],
                            query_texts(description@, model@, name@, serial@, vendor@),
                        )
                    },
            decreases self.searches@.len() - i,
        {
            let q = SingleQuery::texts_of(&self.searches[i], description, model, name, serial, vendor);
            out.push(q.run());
            i += 1;
        }
        MultiSearchResult { searches: out }
    }
}

/// The text forms of the first `n` searches, separated by `", "`.
pub open spec fn joined_text(ss: Seq<SingleSearch>, n: nat) -> Seq<char>
    decreases n,
{
    if n == 0 {
        Seq::empty()
    } else if n == 1 {
        ss[0].text_spec()
    } else {
        joined_text(ss, (n - 1) as nat) + seq![',', ' '] + ss[n - 1].text_spec()
    }
}

/// A search: one pattern, or several that all have to succeed.
pub enum Search {
    Single(SingleSearch),
    Multi(MultiSearch),
}

/// What a [`Search`] found on one head.
#[derive(Debug)]
pub enum SearchResult {
    Single(SingleSearchResult),
    Multi(MultiSearchResult),
}

/// The sum of the specificities of the first `n` searches on the texts.
pub open spec fn searches_specificity(ss: Seq<SingleSearch>, texts: spec_fn(SearchField) -> Seq<char>, n: nat) -> nat
    decreases n,
{
    if n == 0 {
        0
    } else {
        searches_specificity(ss, texts, (n - 1) as nat) + single_specificity(&ss[n - 1], texts)
    }
}

/// How specifically `s` matches the given texts; the sum of a multi-search
/// saturates at `u64::MAX`.
pub open spec fn search_specificity(s: &Search, texts: spec_fn(SearchField) -> Seq<char>) -> nat {
    match s {
        Search::Single(ss) => single_specificity(ss, texts),
        Search::Multi(ms) => saturate(searches_specificity(ms.searches@, texts, ms.searches@.len())),
    }
}

proof fn lemma_results_specificity(
    rs: Seq<SingleSearchResult>,
    ss: Seq<SingleSearch>,
    texts: spec_fn(SearchField) -> Seq<char>,
    n: nat,
)
    requires
        n <= rs.len(),
        rs.len() == ss.len(),
        forall|i: int| 0 <= i < rs.len() ==> (#[trigger] rs[i]).satisfied_spec() == single_satisfied(&ss[i], texts),
    ensures
        results_specificity(rs, n) == searches_specificity(ss, texts, n),
    decreases n,
{
    if n > 0 {
        lemma_results_specificity(rs, ss, texts, (n - 1) as nat);
        assert(rs[n - 1].satisfied_spec() == single_satisfied(&ss[n - 1], texts));
    }
}

/// Whether `s` succeeds on the given texts.
pub open spec fn search_ok(s: &Search, texts: spec_fn(SearchField) -> Seq<char>) -> bool {
    match s {
        Search::Single(ss) => single_ok(ss, texts),
        Search::Multi(ms) => forall|i: int|
            0 <= i < ms.searches@.len() ==> single_ok(#[trigger] &ms.searches@[i], texts),
    }
}

impl SearchResult {
    pub open spec fn is_ok_spec(&self) -> bool {
        match self {
            SearchResult::Single(r) => r.is_ok_spec(),
            SearchResult::Multi(r) => r.is_ok_spec(),
        }
    }

    pub open spec fn specificity_spec(&self) -> nat {
        match self {
            SearchResult::Single(r) => r.specificity_spec(),
            SearchResult::Multi(r) => r.specificity_spec(),
        }
    }

    pub fn is_ok(&self) -> (r: bool)
        ensures
            r == self.is_ok_spec(),
    {
        match self {
            SearchResult::Single(r) => r.is_ok(),
            SearchResult::Multi(r) => r.is_ok(),
        }
    }

    pub fn specificity(&self) -> (r: u64)
        ensures
            r as nat == self.specificity_spec(),
    {
        match self {
            SearchResult::Single(r) => r.specificity(),
            SearchResult::Multi(r) => r.specificity(),
        }
    }
}

impl Search {
    /// Runs the search on the texts of one head.
    pub fn run(
        &self,
        description: &str,
        model: &str,
        name: &str,
        serial: &str,
        vendor: &str,
    ) -> (r: SearchResult)
        ensures
            r.is_ok_spec() == search_ok(self, query_texts(description@, model@, name@, serial@, vendor@)),
            r.specificity_spec() == search_specificity(self, query_texts(description@, model@, name@, serial@, vendor@)),
    {
        match self {
            Search::Single(ss) => {
                let q = SingleQuery::texts_of(ss, description, model, name, serial, vendor);
                SearchResult::Single(q.run())
            },
            Search::Multi(ms) => {
                let r = ms.run(description, model, name, serial, vendor);
                proof {
                    let texts = query_texts(description@, model@, name@, serial@, vendor@);
                    lemma_results_specificity(r.searches@, ms.searches@, texts, r.searches@.len());
                    assert forall|i: int| 0 <= i < ms.searches@.len() implies (
                    #[trigger] r.searches@[i]).is_ok_spec() == single_ok(&ms.searches@[i], texts) by {}
                    if r.is_ok_spec() {
                        assert forall|i: int| 0 <= i < ms.searches@.len() implies single_ok(
                            #[trigger] &ms.searches@[i],
                            texts,
                        ) by {
                            assert(r.searches@[i].is_ok_spec());
                        }
                    }
                    if search_ok(self, texts) {
                        assert forall|i: int| 0 <= i < r.searches@.len() implies (
                        #[trigger] r.searches@[i]).is_ok_spec() by {
                            assert(single_ok(&ms.searches@[i], texts));
                        }
                    }
                }
                SearchResult::Multi(r)
            },
        }
    }

    /// The text form: a single search as it is, several as a bracketed list
    /// separated by `", "`.
    pub fn to_string(&self) -> (r: String)
        ensures
            self matches Search::Single(ss) ==> r@ == ss.text_spec(),
            self matches Search::Multi(ms) ==> r@ == seq!['['] + joined_text(ms.searches@, ms.searches@.len())
                + seq![']'],
    {
        match self {
            Search::Single(ss) => ss.to_string(),
            Search::Multi(ms) => {
                proof {
                    reveal_strlit("[");
                    reveal_strlit("]");
                    reveal_strlit(", ");
                }
                let mut r = String::new();
                r.append("[");
                let mut i: usize = 0;
                while i < ms.searches.len()
                    invariant
                        i <= ms.searches@.len(),
                        r@ == seq!['['] + joined_text(ms.searches@, i as nat),
                    decreases ms.searches@.len() - i,
                {
                    proof {
                        reveal_strlit(", ");
                    }
                    if i != 0 {
                        r.append(", ");
                    }
                    let t = ms.searches[i].to_string();
                    r.append(t.as_str());
                    i += 1;
                    proof {
                        assert(r@ =~= seq!['['] + joined_text(ms.searches@, i as nat));
                    }
                }
                proof {
                    reveal_strlit("]");
                }
                r.append("]");
                r
            },
        }
    }
}

} // verus!
