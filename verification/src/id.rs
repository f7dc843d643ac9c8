//! Validated, namespaced identifiers.

use vstd::prelude::*;
use vstd::string::StrSliceExecFns;

use crate::sorted_map::Ordered;
use crate::text;

verus! {

/// Why a text is not an identifier.
#[derive(Debug, PartialEq)]
pub enum IdError {
    Empty,
    InvalidChar(char),
    NoNamespace,
    LeadingOrTrailingSlash,
}

/// The characters an identifier is written in.
pub open spec fn is_id_char(c: char) -> bool {
    'a' <= c <= 'z' || '0' <= c <= '9' || c == '/' || c == '_' || c == '-' || c == '#'
}

/// Whether `i` is the first position of `t` at which `p` holds.
pub open spec fn is_first(t: text::Text, p: spec_fn(char) -> bool, i: int) -> bool {
    &&& 0 <= i < t.len()
    &&& p(t[i])
    &&& forall|j: int| 0 <= j < i ==> !p(#[trigger] t[j])
}

/// The first position of `t` at which `p` holds.
pub open spec fn first(t: text::Text, p: spec_fn(char) -> bool) -> int {
    choose|i: int| is_first(t, p, i)
}

/// The first position of a slash.
pub open spec fn first_slash(t: text::Text) -> int {
    first(t, |c: char| c == '/')
}

/// The first character that no identifier holds.
pub open spec fn first_invalid(t: text::Text) -> char {
    t[first(t, |c: char| !is_id_char(c))]
}

/// Whether `t` is an identifier: `zone/name` in small letters, digits and a
/// few marks, with nothing missing on either side.
pub open spec fn valid_id(t: text::Text) -> bool {
    id_check(t) is Ok
}

/// What is wrong with `t` as an identifier, if anything.
pub open spec fn id_check(t: text::Text) -> Result<(), IdError> {
    if t.len() == 0 {
        Err(IdError::Empty)
    } else if t[0] == '/' || t.last() == '/' {
        Err(IdError::LeadingOrTrailingSlash)
    } else if exists|i: int| 0 <= i < t.len() && !is_id_char(#[trigger] t[i]) {
        Err(IdError::InvalidChar(first_invalid(t)))
    } else if !t.contains('/') {
        Err(IdError::NoNamespace)
    } else {
        Ok(())
    }
}

/// The part of an identifier before its first slash.
pub open spec fn zone_of(t: text::Text) -> text::Text {
    if t.contains('/') {
        t.take(first_slash(t))
    } else {
        t
    }
}

/// The part of an identifier after its first slash.
pub open spec fn name_of(t: text::Text) -> text::Text {
    if t.contains('/') {
        t.skip(first_slash(t) + 1)
    } else {
        t
    }
}

proof fn lemma_first(t: text::Text, p: spec_fn(char) -> bool, i: int)
    requires
        is_first(t, p, i),
    ensures
        first(t, p) == i,
{
    let k = first(t, p);
    assert(is_first(t, p, k));
    if k < i {
        assert(p(t[k]));
    } else if i < k {
        assert(p(t[i]));
    }
}

proof fn lemma_first_exists(t: text::Text, p: spec_fn(char) -> bool, n: int)
    requires
        0 <= n < t.len(),
        p(t[n]),
    ensures
        is_first(t, p, first(t, p)),
    decreases n,
{
    if is_first(t, p, n) {
        lemma_first(t, p, n);
    } else {
        let j = choose|j: int| 0 <= j < n && p(#[trigger] t[j]);
        lemma_first_exists(t, p, j);
    }
}

/// An identifier is its zone, a slash and its name. Neither part is empty and
/// the zone holds no slash, so the two parts determine it.
pub proof fn lemma_id_is_zone_and_name(t: text::Text)
    requires
        valid_id(t),
    ensures
        t == zone_of(t) + seq!['/'] + name_of(t),
        zone_of(t).len() > 0,
        name_of(t).len() > 0,
        !zone_of(t).contains('/'),
{
    let n = choose|n: int| 0 <= n < t.len() && t[n] == '/';
    lemma_first_exists(t, |c: char| c == '/', n);
    let k = first_slash(t);
    assert(t =~= zone_of(t) + seq!['/'] + name_of(t));
    if zone_of(t).contains('/') {
        let j = choose|j: int| 0 <= j < zone_of(t).len() && zone_of(t)[j] == '/';
        assert(t[j] == '/');
    }
    assert(k > 0);
    assert(k < t.len() - 1);
}

/// A zone and a name make one identifier: two identifiers with the same zone
/// and the same name are the same.
pub proof fn lemma_zone_and_name_determine_id(s: text::Text, t: text::Text)
    requires
        valid_id(s),
        valid_id(t),
        zone_of(s) == zone_of(t),
        name_of(s) == name_of(t),
    ensures
        s == t,
{
    lemma_id_is_zone_and_name(s);
    lemma_id_is_zone_and_name(t);
}

/// A validated, human-readable, namespaced identifier, e.g. `snakewood/clearing`.
#[derive(Debug, PartialEq, Eq, PartialOrd, Ord, Hash)]
pub struct EntityId {
    text: String,
}

impl View for EntityId {
    type V = text::Text;

    closed spec fn view(&self) -> text::Text {
        self.text@
    }
}

impl EntityId {
    #[verifier::type_invariant]
    spec fn well_formed(self) -> bool {
        valid_id(self.text@)
    }

    /// The identifier written `s`, or what is wrong with it.
    pub fn new(s: &str) -> (r: Result<EntityId, IdError>)
        ensures
            match r {
                Ok(id) => valid_id(s@) && id@ == s@,
                Err(e) => id_check(s@) == Err::<(), IdError>(e),
            },
    {
        let chars = text::chars_of(s);
        let n = chars.len();
        if n == 0 {
            return Err(IdError::Empty);
        }
        if chars[0] == '/' || chars[n - 1] == '/' {
            return Err(IdError::LeadingOrTrailingSlash);
        }
        let mut slash: bool = false;
        for i in 0..n
            invariant
                n == chars@.len(),
                chars@ == s@,
                s@.len() > 0,
                s@[0] != '/' && s@.last() != '/',
                forall|j: int| 0 <= j < i ==> is_id_char(#[trigger] s@[j]),
                slash == exists|j: int| 0 <= j < i && #[trigger] s@[j] == '/',
        {
            let c = chars[i];
            let ok = ('a' <= c && c <= 'z') || ('0' <= c && c <= '9') || c == '/' || c == '_' || c
                == '-' || c == '#';
            if !ok {
                proof {
                    lemma_first(s@, |x: char| !is_id_char(x), i as int);
                    assert(!is_id_char(s@[i as int]));
                }
                return Err(IdError::InvalidChar(c));
            }
            if c == '/' {
                slash = true;
                assert(s@[i as int] == '/');
            }
        }
        if !slash {
            return Err(IdError::NoNamespace);
        }
        Ok(EntityId { text: s.to_string() })
    }

    /// The identifier as written.
    pub fn as_str(&self) -> (r: &str)
        ensures
            r@ == self@,
            valid_id(r@),
    {
        proof {
            use_type_invariant(self);
        }
        self.text.as_str()
    }

    /// The position of the first slash.
    fn slash(&self) -> (r: usize)
        ensures
            self@.contains('/'),
            r == first_slash(self@),
            r < self@.len(),
            self@[r as int] == '/',
    {
        proof {
            use_type_invariant(self);
        }
        let chars = text::chars_of(self.text.as_str());
        let n = chars.len();
        let mut i: usize = 0;
        while chars[i] != '/'
            invariant
                n == chars@.len(),
                chars@ == self@,
                self@.contains('/'),
                i < n,
                forall|j: int| 0 <= j < i ==> #[trigger] self@[j] != '/',
            decreases n - i,
        {
            proof {
                let k = choose|k: int| 0 <= k < self@.len() && self@[k] == '/';
                assert(self@[k] == '/');
                assert(i < k);
            }
            i = i + 1;
        }
        proof {
            lemma_first(self@, |c: char| c == '/', i as int);
        }
        i
    }

    /// The namespace: what stands before the first slash.
    pub fn zone(&self) -> (r: &str)
        ensures
            r@ == zone_of(self@),
    {
        let i = self.slash();
        self.text.as_str().substring_char(0, i)
    }

    /// What stands after the first slash, deeper segments included.
    pub fn name(&self) -> (r: &str)
        ensures
            r@ == name_of(self@),
    {
        let i = self.slash();
        let s = self.text.as_str();
        let n = s.unicode_len();
        let r = s.substring_char(i + 1, n);
        assert(r@ =~= name_of(self@));
        r
    }
}

impl Clone for EntityId {
    fn clone(&self) -> (r: EntityId)
        ensures
            r@ == self@,
    {
        proof {
            use_type_invariant(self);
        }
        EntityId { text: self.text.clone() }
    }
}

impl Ordered for EntityId {
    open spec fn before(a: text::Text, b: text::Text) -> bool {
        text::precedes(a, b)
    }

    proof fn before_irreflexive(a: text::Text) {
        text::lemma_precedes_irreflexive(a);
    }

    proof fn before_transitive(a: text::Text, b: text::Text, c: text::Text) {
        if text::precedes(a, b) && text::precedes(b, c) {
            text::lemma_precedes_transitive(a, b, c);
        }
    }

    proof fn before_total(a: text::Text, b: text::Text) {
        text::lemma_precedes_total(a, b);
    }

    fn is_before(&self, other: &EntityId) -> (r: bool) {
        text::comes_before(self.text.as_str(), other.text.as_str())
    }

    fn is_same(&self, other: &EntityId) -> (r: bool) {
        self.text == other.text
    }
}

// ---------------------------------------------------------------------------
// Laws
// ---------------------------------------------------------------------------

/// All the characters that an identifier may hold.
pub open spec fn alphabet() -> text::Text {
    "abcdefghijklmnopqrstuvwxyz0123456789/_-#"@
}

/// An identifier holds small letters, digits, slashes, underscores, hyphens and hash
/// marks, any of them, and no other character.
pub proof fn lemma_characters_of_identifiers(c: char)
    ensures
        is_id_char(c) <==> alphabet().contains(c),
{
    reveal_strlit("abcdefghijklmnopqrstuvwxyz0123456789/_-#");
    let a = alphabet();
    if 'a' <= c <= 'z' {
        assert(a[c as int - 97] == c);
    } else if '0' <= c <= '9' {
        assert(a[c as int - 48 + 26] == c);
    } else if is_id_char(c) {
        assert(a[36] == '/' && a[37] == '_' && a[38] == '-' && a[39] == '#');
    }
    if a.contains(c) {
        let i = choose|i: int| 0 <= i < a.len() && a[i] == c;
        assert(a.len() == 40);
        assert(is_id_char(a[i]));
    }
}

/// A zone without a slash, a slash, and a name that does not end in one make an
/// identifier, with that zone and that name.
pub proof fn lemma_zone_and_name_make_an_id(zone: text::Text, name: text::Text)
    requires
        zone.len() > 0,
        name.len() > 0,
        !zone.contains('/'),
        name.last() != '/',
        forall|i: int| 0 <= i < zone.len() ==> alphabet().contains(#[trigger] zone[i]),
        forall|i: int| 0 <= i < name.len() ==> alphabet().contains(#[trigger] name[i]),
    ensures
        valid_id(zone + seq!['/'] + name),
        zone_of(zone + seq!['/'] + name) == zone,
        name_of(zone + seq!['/'] + name) == name,
{
    let t = zone + seq!['/'] + name;
    let k = zone.len() as int;
    assert(t[k] == '/');
    assert(t.contains('/'));
    assert(t[0] == zone[0]);
    assert(zone.contains(zone[0]));
    assert(t.last() == name.last());
    assert forall|i: int| 0 <= i < t.len() implies is_id_char(#[trigger] t[i]) by {
        lemma_characters_of_identifiers(t[i]);
        if i < k {
            assert(t[i] == zone[i]);
        } else if i > k {
            assert(t[i] == name[i - k - 1]);
        }
    }
    assert(is_first(t, |c: char| c == '/', k)) by {
        assert forall|j: int| 0 <= j < k implies #[trigger] t[j] != '/' by {
            assert(zone[j] == t[j]);
            assert(zone.contains(zone[j]));
        }
    }
    lemma_first(t, |c: char| c == '/', k);
    assert(t.take(k) =~= zone);
    assert(t.skip(k + 1) =~= name);
}

/// What is wrong with a text that is no identifier. An empty one is that; one with a
/// slash at either end is that, whatever else it holds; of any other the first character
/// that no identifier holds is named; and where there is none such, it lacks a slash.
pub proof fn lemma_what_is_wrong(t: text::Text)
    ensures
        match id_check(t) {
            Err(IdError::Empty) => t.len() == 0,
            Err(IdError::LeadingOrTrailingSlash) => t.len() > 0 && (t[0] == '/' || t[t.len() - 1]
                == '/'),
            Err(IdError::InvalidChar(c)) => {
                &&& t.len() > 0 && t[0] != '/' && t[t.len() - 1] != '/'
                &&& exists|i: int|
                    #![trigger t[i]]
                    0 <= i < t.len() && t[i] == c && !alphabet().contains(c) && forall|j: int|
                        0 <= j < i ==> alphabet().contains(#[trigger] t[j])
            },
            Err(IdError::NoNamespace) => {
                &&& t.len() > 0 && forall|i: int|
                    0 <= i < t.len() ==> alphabet().contains(#[trigger] t[i])
                &&& !t.contains('/')
            },
            Ok(_) => {
                &&& t.len() > 0 && t[0] != '/' && t[t.len() - 1] != '/' && t.contains('/')
                &&& forall|i: int| 0 <= i < t.len() ==> alphabet().contains(#[trigger] t[i])
            },
        },
{
    assert forall|i: int| 0 <= i < t.len() implies is_id_char(#[trigger] t[i])
        == alphabet().contains(t[i]) by {
        lemma_characters_of_identifiers(t[i]);
    }
    if t.len() > 0 && t[0] != '/' && t.last() != '/' && exists|i: int|
        0 <= i < t.len() && !is_id_char(#[trigger] t[i]) {
        let p = |c: char| !is_id_char(c);
        let n = choose|n: int| 0 <= n < t.len() && !is_id_char(#[trigger] t[n]);
        lemma_first_exists(t, p, n);
        let i = first(t, p);
        assert(t[i] == first_invalid(t));
        assert forall|j: int| 0 <= j < i implies alphabet().contains(#[trigger] t[j]) by {
            assert(!p(t[j]));
        }
    }
}

/// Identifiers are ordered as texts are.
pub proof fn lemma_order_of_identifiers(a: text::Text, b: text::Text)
    ensures
        EntityId::before(a, b) <==> text::precedes(a, b),
{
}

} // verus!
