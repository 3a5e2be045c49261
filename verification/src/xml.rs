//! XMPP stanzas as plain data, and the lookups the Jingle code makes on them.
//!
//! An [`Element`] is either a tag (a name, attributes and children) or a text
//! node (no name, only text), which is how an XMPP library hands a stanza to
//! its users. A selector such as `"content>transport>fingerprint"` names a
//! path: its first segment is matched against a child of the element the
//! lookup starts from, and every further segment against the first child of
//! that name one level further down.

use crate::text::{chars_eq, chars_of, push_chars, string_from_chars};
use vstd::prelude::*;

verus! {

/// One node of a stanza.
#[derive(Debug)]
pub struct Element {
    /// The tag name; `None` for a text node.
    pub name: Option<String>,
    /// The attributes, each key at most once.
    pub attributes: Vec<(String, String)>,
    pub children: Vec<Element>,
    /// The text of a text node; `None` for a tag.
    pub text: Option<String>,
}

/// Whether `e` is a tag named `n`.
pub open spec fn name_is(e: Element, n: Seq<char>) -> bool {
    match e.name {
        Some(s) => s@ == n,
        None => false,
    }
}

/// The value of the first attribute keyed `key` among `attrs`.
pub open spec fn attr_in(attrs: Seq<(String, String)>, key: Seq<char>) -> Option<Seq<char>>
    decreases attrs.len(),
{
    if attrs.len() == 0 {
        None
    } else if attrs[0].0@ == key {
        Some(attrs[0].1@)
    } else {
        attr_in(attrs.drop_first(), key)
    }
}

/// The value of attribute `key` of `e`, if it has one.
pub open spec fn attr_value(e: Element, key: Seq<char>) -> Option<Seq<char>> {
    attr_in(e.attributes@, key)
}

/// The value of attribute `key`, or the empty string when it is missing.
pub open spec fn attr_or_empty(e: Element, key: Seq<char>) -> Seq<char> {
    match attr_value(e, key) {
        Some(v) => v,
        None => seq![],
    }
}

/// The first child of `kids` that is a tag named `n`.
pub open spec fn first_named(kids: Seq<Element>, n: Seq<char>) -> Option<Element>
    decreases kids.len(),
{
    if kids.len() == 0 {
        None
    } else if name_is(kids[0], n) {
        Some(kids[0])
    } else {
        first_named(kids.drop_first(), n)
    }
}

/// Follows `rest` down from `e`, each step to the first child of that name.
pub open spec fn descend(e: Element, rest: Seq<Seq<char>>) -> Option<Element>
    decreases rest.len(),
{
    if rest.len() == 0 {
        Some(e)
    } else {
        match first_named(e.children@, rest[0]) {
            Some(c) => descend(c, rest.drop_first()),
            None => None,
        }
    }
}

/// The element a path names when resolved from `c`: `c` itself must carry
/// the first segment's name.
pub open spec fn path_from(c: Element, path: Seq<Seq<char>>) -> Option<Element> {
    if path.len() > 0 && name_is(c, path[0]) {
        descend(c, path.drop_first())
    } else {
        None
    }
}

/// Every match of `path` resolved from each of `kids`, in order.
pub open spec fn matches_in(kids: Seq<Element>, path: Seq<Seq<char>>) -> Seq<Element>
    decreases kids.len(),
{
    if kids.len() == 0 {
        seq![]
    } else {
        match path_from(kids[0], path) {
            Some(m) => seq![m] + matches_in(kids.drop_first(), path),
            None => matches_in(kids.drop_first(), path),
        }
    }
}

/// What `str::split(sep)` yields, from the left, when `cur` is the piece
/// being read.
pub open spec fn split_from(s: Seq<char>, sep: char, cur: Seq<char>) -> Seq<Seq<char>>
    decreases s.len(),
{
    if s.len() == 0 {
        seq![cur]
    } else if s[0] == sep {
        seq![cur] + split_from(s.drop_first(), sep, seq![])
    } else {
        split_from(s.drop_first(), sep, cur.push(s[0]))
    }
}

/// The `>`-separated segments of a selector.
pub open spec fn selector_path(selector: Seq<char>) -> Seq<Seq<char>> {
    split_from(selector, '>', seq![])
}

/// Every element `selector` names below `element`, one per child at most;
/// none when there is no element.
pub open spec fn find_all_spec(element: Option<Element>, selector: Seq<char>) -> Seq<Element> {
    match element {
        Some(e) => matches_in(e.children@, selector_path(selector)),
        None => seq![],
    }
}

/// The text of a tag: its text children joined, in order.
pub open spec fn joined_text(kids: Seq<Element>) -> Seq<char>
    decreases kids.len(),
{
    if kids.len() == 0 {
        seq![]
    } else {
        let head = match kids[0].name {
            None => match kids[0].text {
                Some(t) => t@,
                None => seq![],
            },
            Some(_) => seq![],
        };
        head + joined_text(kids.drop_first())
    }
}

/// The text of an element: a text node's own text, or, for a tag, its text
/// children joined, `None` when that is empty.
pub open spec fn text_of(e: Element) -> Option<Seq<char>> {
    match e.name {
        None => match e.text {
            Some(t) => Some(t@),
            None => None,
        },
        Some(_) => if joined_text(e.children@).len() > 0 {
            Some(joined_text(e.children@))
        } else {
            None
        },
    }
}

/// The views of a sequence of element references.
pub open spec fn derefs(v: Seq<&Element>) -> Seq<Element> {
    v.map_values(|x: &Element| *x)
}

proof fn lemma_split_step(s: Seq<char>, i: int, sep: char, cur: Seq<char>)
    requires
        0 <= i < s.len(),
    ensures
        split_from(s.skip(i), sep, cur) == if s[i] == sep {
            seq![cur] + split_from(s.skip(i + 1), sep, seq![])
        } else {
            split_from(s.skip(i + 1), sep, cur.push(s[i]))
        },
{
    assert(s.skip(i).drop_first() =~= s.skip(i + 1));
}

/// The `>`-separated segments of a selector, as `str::split('>')` gives
/// them.
pub fn split_selector(selector: &str) -> (parts: Vec<Vec<char>>)
    ensures
        crate::text::seq_views(parts@) == selector_path(selector@),
{
    let s = chars_of(selector);
    let mut parts: Vec<Vec<char>> = Vec::new();
    let mut cur: Vec<char> = Vec::new();
    let mut i: usize = 0;
    assert(s@.skip(0) =~= s@);
    assert(crate::text::seq_views(parts@) =~= Seq::<Seq<char>>::empty());
    assert(cur@ =~= Seq::<char>::empty());
    while i < s.len()
        invariant
            i <= s.len(),
            s@ == selector@,
            crate::text::seq_views(parts@) + split_from(s@.skip(i as int), '>', cur@)
                == selector_path(selector@),
        decreases s.len() - i,
    {
        proof {
            lemma_split_step(s@, i as int, '>', cur@);
        }
        let c = s[i];
        if c == '>' {
            let ghost old_parts = crate::text::seq_views(parts@);
            let w = cur;
            parts.push(w);
            cur = Vec::new();
            assert(crate::text::seq_views(parts@) =~= old_parts + seq![w@]);
            assert(crate::text::seq_views(parts@) + split_from(s@.skip(i + 1), '>', cur@)
                =~= old_parts + (seq![w@] + split_from(s@.skip(i + 1), '>', seq![])));
        } else {
            cur.push(c);
        }
        i += 1;
    }
    let ghost old_parts = crate::text::seq_views(parts@);
    assert(s@.skip(i as int).len() == 0);
    let w = cur;
    parts.push(w);
    assert(crate::text::seq_views(parts@) =~= old_parts + seq![w@]);
    parts
}

/// The attributes as plain pairs.
pub open spec fn attr_pairs(attrs: Seq<(String, String)>) -> Seq<(Seq<char>, Seq<char>)> {
    attrs.map_values(|p: (String, String)| (p.0@, p.1@))
}

/// The index of the first pair keyed `key`.
pub open spec fn key_index(ps: Seq<(Seq<char>, Seq<char>)>, key: Seq<char>) -> Option<int>
    decreases ps.len(),
{
    if ps.len() == 0 {
        None
    } else {
        match key_index(ps.drop_last(), key) {
            Some(i) => Some(i),
            None => if ps.last().0 == key {
                Some(ps.len() - 1)
            } else {
                None
            },
        }
    }
}

/// `ps` with `key` set to `value`: replaced where it is, appended when it is
/// new.
pub open spec fn set_pair(ps: Seq<(Seq<char>, Seq<char>)>, key: Seq<char>, value: Seq<char>) -> Seq<
    (Seq<char>, Seq<char>),
> {
    match key_index(ps, key) {
        Some(i) => ps.update(i, (key, value)),
        None => ps.push((key, value)),
    }
}

/// Whether `e` is a tag named `name` with exactly the attributes `pairs`.
pub open spec fn tag_is(e: Element, name: Seq<char>, pairs: Seq<(Seq<char>, Seq<char>)>) -> bool {
    &&& name_is(e, name)
    &&& e.text is None
    &&& attr_pairs(e.attributes@) == pairs
}

/// Whether `e` is a text node holding `text`.
pub open spec fn text_node_is(e: Element, text: Seq<char>) -> bool {
    &&& e.name is None
    &&& e.attributes@.len() == 0
    &&& e.children@.len() == 0
    &&& (e.text matches Some(t) && t@ == text)
}

impl Element {
    /// A tag with no attributes and no children.
    pub fn tag(name: &str) -> (r: Element)
        ensures
            tag_is(r, name@, seq![]),
            r.children@.len() == 0,
    {
        let r = Element {
            name: Some(String::from_str(name)),
            attributes: Vec::new(),
            children: Vec::new(),
            text: None,
        };
        assert(attr_pairs(r.attributes@) =~= Seq::<(Seq<char>, Seq<char>)>::empty());
        r
    }

    /// A text node.
    pub fn text_node(text: &str) -> (r: Element)
        ensures
            text_node_is(r, text@),
    {
        Element { name: None, attributes: Vec::new(), children: Vec::new(), text: Some(String::from_str(text)) }
    }

    /// Sets attribute `key`, replacing its value if present.
    pub fn set_attribute(&mut self, key: &str, value: &str)
        ensures
            attr_pairs(final(self).attributes@) == set_pair(attr_pairs(old(self).attributes@), key@, value@),
            final(self).name == old(self).name,
            final(self).children == old(self).children,
            final(self).text == old(self).text,
    {
        let ghost ps = attr_pairs(self.attributes@);
        let k = chars_of(key);
        let mut i: usize = 0;
        while i < self.attributes.len()
            invariant
                i <= self.attributes@.len(),
                k@ == key@,
                ps == attr_pairs(self.attributes@),
                self.attributes@ == old(self).attributes@,
                self.name == old(self).name,
                self.children == old(self).children,
                self.text == old(self).text,
                key_index(ps.take(i as int), key@) is None,
            decreases self.attributes@.len() - i,
        {
            assert(ps.take(i + 1).drop_last() =~= ps.take(i as int));
            let kc = chars_of(self.attributes[i].0.as_str());
            if chars_eq(kc.as_slice(), k.as_slice()) {
                assert(key_index(ps.take(i + 1), key@) == Some(i as int));
                proof {
                    lemma_key_index_prefix(ps, i as int, key@);
                }
                self.attributes.set(i, (String::from_str(key), String::from_str(value)));
                assert(attr_pairs(self.attributes@) =~= ps.update(i as int, (key@, value@)));
                return;
            }
            i += 1;
        }
        assert(ps.take(i as int) =~= ps);
        self.attributes.push((String::from_str(key), String::from_str(value)));
        assert(attr_pairs(self.attributes@) =~= ps.push((key@, value@)));
    }

    /// Appends a child.
    pub fn add_child(&mut self, child: Element)
        ensures
            final(self).children@ == old(self).children@.push(child),
            final(self).name == old(self).name,
            final(self).attributes == old(self).attributes,
            final(self).text == old(self).text,
    {
        self.children.push(child);
    }
}

proof fn lemma_key_index_prefix(ps: Seq<(Seq<char>, Seq<char>)>, i: int, key: Seq<char>)
    requires
        0 <= i < ps.len(),
        key_index(ps.take(i + 1), key) is Some,
    ensures
        key_index(ps, key) == key_index(ps.take(i + 1), key),
    decreases ps.len() - i,
{
    if i + 1 == ps.len() {
        assert(ps.take(i + 1) =~= ps);
    } else {
        assert(ps.take(i + 2).drop_last() =~= ps.take(i + 1));
        lemma_key_index_prefix(ps, i + 1, key);
    }
}

impl Element {
    /// Whether this is a tag named `n`.
    pub fn is_named(&self, n: &[char]) -> (r: bool)
        ensures
            r == name_is(*self, n@),
    {
        match &self.name {
            Some(s) => {
                let sc = chars_of(s.as_str());
                chars_eq(sc.as_slice(), n)
            },
            None => false,
        }
    }

    /// The value of attribute `key`, if present.
    pub fn get_attribute(&self, key: &str) -> (r: Option<&String>)
        ensures
            match r {
                Some(v) => attr_value(*self, key@) == Some(v@),
                None => attr_value(*self, key@).is_none(),
            },
    {
        let k = chars_of(key);
        let mut i: usize = 0;
        assert(self.attributes@.skip(0) =~= self.attributes@);
        while i < self.attributes.len()
            invariant
                i <= self.attributes@.len(),
                k@ == key@,
                attr_in(self.attributes@, key@) == attr_in(self.attributes@.skip(i as int), key@),
            decreases self.attributes@.len() - i,
        {
            let kc = chars_of(self.attributes[i].0.as_str());
            assert(self.attributes@.skip(i as int).drop_first() =~= self.attributes@.skip(i + 1));
            if chars_eq(kc.as_slice(), k.as_slice()) {
                return Some(&self.attributes[i].1);
            }
            i += 1;
        }
        None
    }

    /// The value of attribute `key`, or an empty string when it is missing.
    pub fn attr_or_empty(&self, key: &str) -> (r: Vec<char>)
        ensures
            r@ == attr_or_empty(*self, key@),
    {
        match self.get_attribute(key) {
            Some(v) => chars_of(v.as_str()),
            None => Vec::new(),
        }
    }

    /// The element's text: a text node's own, or a tag's text children
    /// joined, `None` when that is empty.
    pub fn get_text(&self) -> (r: Option<String>)
        ensures
            match r {
                Some(t) => text_of(*self) == Some(t@),
                None => text_of(*self).is_none(),
            },
    {
        match &self.name {
            None => match &self.text {
                Some(t) => Some(t.clone()),
                None => None,
            },
            Some(_) => {
                let mut acc: Vec<char> = Vec::new();
                let mut i: usize = 0;
                assert(self.children@.skip(0) =~= self.children@);
                while i < self.children.len()
                    invariant
                        i <= self.children@.len(),
                        acc@ + joined_text(self.children@.skip(i as int)) == joined_text(
                            self.children@,
                        ),
                    decreases self.children@.len() - i,
                {
                    let ghost rest = self.children@.skip(i as int);
                    assert(rest.drop_first() =~= self.children@.skip(i + 1));
                    let child = &self.children[i];
                    match &child.name {
                        None => match &child.text {
                            Some(t) => {
                                let tc = chars_of(t.as_str());
                                push_chars(&mut acc, tc.as_slice());
                            },
                            None => {},
                        },
                        Some(_) => {},
                    }
                    assert(acc@ + joined_text(self.children@.skip(i + 1)) =~= joined_text(
                        self.children@,
                    ));
                    i += 1;
                }
                assert(self.children@.skip(i as int) =~= Seq::<Element>::empty());
                assert(acc@ =~= joined_text(self.children@));
                if acc.len() > 0 {
                    Some(string_from_chars(acc.as_slice()))
                } else {
                    None
                }
            },
        }
    }

    /// The first child that is a tag named `n`.
    pub fn child_by_name(&self, n: &[char]) -> (r: Option<&Element>)
        ensures
            match r {
                Some(c) => first_named(self.children@, n@) == Some(*c),
                None => first_named(self.children@, n@).is_none(),
            },
    {
        let mut i: usize = 0;
        assert(self.children@.skip(0) =~= self.children@);
        while i < self.children.len()
            invariant
                i <= self.children@.len(),
                first_named(self.children@, n@) == first_named(
                    self.children@.skip(i as int),
                    n@,
                ),
            decreases self.children@.len() - i,
        {
            assert(self.children@.skip(i as int).drop_first() =~= self.children@.skip(i + 1));
            if self.children[i].is_named(n) {
                return Some(&self.children[i]);
            }
            i += 1;
        }
        None
    }

    /// Resolves `path` from this element: it must carry the first segment's
    /// name, and each further segment names the first child of that name.
    pub fn get_child_by_path(&self, path: &[Vec<char>]) -> (r: Option<&Element>)
        ensures
            match r {
                Some(c) => path_from(*self, crate::text::seq_views(path@)) == Some(*c),
                None => path_from(*self, crate::text::seq_views(path@)).is_none(),
            },
    {
        let ghost p = crate::text::seq_views(path@);
        if path.len() == 0 {
            return None;
        }
        if !self.is_named(path[0].as_slice()) {
            return None;
        }
        let mut cur: &Element = self;
        let mut i: usize = 1;
        assert(p.drop_first() =~= p.skip(1));
        while i < path.len()
            invariant
                1 <= i <= path@.len(),
                p == crate::text::seq_views(path@),
                path_from(*self, p) == descend(*cur, p.skip(i as int)),
            decreases path@.len() - i,
        {
            assert(p.skip(i as int)[0] == path@[i as int]@);
            assert(p.skip(i as int).drop_first() =~= p.skip(i + 1));
            match cur.child_by_name(path[i].as_slice()) {
                Some(c) => {
                    cur = c;
                },
                None => {
                    return None;
                },
            }
            i += 1;
        }
        assert(p.skip(i as int) =~= Seq::<Seq<char>>::empty());
        Some(cur)
    }
}

/// Collects every descendant matching `selector`, a `>`-separated path such
/// as `"jingle>content>description"`, resolved from each child of `element`
/// in turn. Returns an empty vector when `element` is `None` or nothing
/// matches.
pub fn find_all<'a>(element: Option<&'a Element>, selector: &str) -> (r: Vec<&'a Element>)
    ensures
        derefs(r@) == find_all_spec(
            match element {
                Some(e) => Some(*e),
                None => None,
            },
            selector@,
        ),
{
    let path = split_selector(selector);
    let mut result: Vec<&'a Element> = Vec::new();
    match element {
        Some(e) => {
            let mut i: usize = 0;
            assert(e.children@.skip(0) =~= e.children@);
            assert(derefs(result@) =~= Seq::<Element>::empty());
            while i < e.children.len()
                invariant
                    i <= e.children@.len(),
                    crate::text::seq_views(path@) == selector_path(selector@),
                    derefs(result@) + matches_in(
                        e.children@.skip(i as int),
                        selector_path(selector@),
                    ) == matches_in(e.children@, selector_path(selector@)),
                decreases e.children@.len() - i,
            {
                assert(e.children@.skip(i as int).drop_first() =~= e.children@.skip(i + 1));
                let ghost before = derefs(result@);
                match e.children[i].get_child_by_path(path.as_slice()) {
                    Some(m) => {
                        result.push(m);
                        assert(derefs(result@) =~= before + seq![*m]);
                    },
                    None => {},
                }
                i += 1;
            }
            assert(e.children@.skip(i as int) =~= Seq::<Element>::empty());
            assert(derefs(result@) =~= matches_in(e.children@, selector_path(selector@)));
        },
        None => {
            assert(derefs(result@) =~= Seq::<Element>::empty());
        },
    }
    result
}

/// Like [`find_all`], but stops at the first match.
pub fn find_first<'a>(element: Option<&'a Element>, selector: &str) -> (r: Option<&'a Element>)
    ensures
        ({
            let all = find_all_spec(
                match element {
                    Some(e) => Some(*e),
                    None => None,
                },
                selector@,
            );
            match r {
                Some(m) => all.len() > 0 && all[0] == *m,
                None => all.len() == 0,
            }
        }),
{
    let all = find_all(element, selector);
    if all.len() > 0 {
        Some(all[0])
    } else {
        None
    }
}

/// True when at least one descendant matches `selector`.
pub fn has_match(element: Option<&Element>, selector: &str) -> (r: bool)
    ensures
        r == (find_all_spec(
            match element {
                Some(e) => Some(*e),
                None => None,
            },
            selector@,
        ).len() != 0),
{
    let all = find_all(element, selector);
    all.len() != 0
}

/// The value of the first pair keyed `key`.
pub open spec fn pair_lookup(ps: Seq<(Seq<char>, Seq<char>)>, key: Seq<char>) -> Option<Seq<char>>
    decreases ps.len(),
{
    if ps.len() == 0 {
        None
    } else if ps[0].0 == key {
        Some(ps[0].1)
    } else {
        pair_lookup(ps.drop_first(), key)
    }
}

proof fn lemma_attr_in_pairs(attrs: Seq<(String, String)>, key: Seq<char>)
    ensures
        attr_in(attrs, key) == pair_lookup(attr_pairs(attrs), key),
    decreases attrs.len(),
{
    if attrs.len() > 0 {
        assert(attr_pairs(attrs).drop_first() =~= attr_pairs(attrs.drop_first()));
        lemma_attr_in_pairs(attrs.drop_first(), key);
    }
}

proof fn lemma_key_index_lookup(ps: Seq<(Seq<char>, Seq<char>)>, key: Seq<char>)
    ensures
        match key_index(ps, key) {
            Some(i) => 0 <= i < ps.len() && ps[i].0 == key && pair_lookup(ps, key) == Some(ps[i].1)
                && forall|j: int| 0 <= j < i ==> ps[j].0 != key,
            None => pair_lookup(ps, key) is None && forall|j: int| 0 <= j < ps.len() ==> ps[j].0 != key,
        },
    decreases ps.len(),
{
    if ps.len() > 0 {
        let init = ps.drop_last();
        lemma_key_index_lookup(init, key);
        lemma_lookup_from_front(ps, key);
        assert forall|j: int| 0 <= j < init.len() implies init[j] == ps[j] by {}
        match key_index(init, key) {
            Some(i) => {
                assert(ps[i].0 == key);
                assert forall|j: int| 0 <= j < i implies ps[j].0 != key by {
                    assert(init[j] == ps[j]);
                }
            },
            None => {
                assert forall|j: int| 0 <= j < init.len() implies ps[j].0 != key by {
                    assert(init[j] == ps[j]);
                }
            },
        }
    }
}

proof fn lemma_lookup_from_front(ps: Seq<(Seq<char>, Seq<char>)>, key: Seq<char>)
    ensures
        forall|i: int|
            0 <= i < ps.len() && ps[i].0 == key && (forall|j: int| 0 <= j < i ==> ps[j].0 != key)
                ==> pair_lookup(ps, key) == Some(ps[i].1),
        (forall|j: int| 0 <= j < ps.len() ==> ps[j].0 != key) ==> pair_lookup(ps, key) is None,
    decreases ps.len(),
{
    if ps.len() > 0 {
        lemma_lookup_from_front(ps.drop_first(), key);
        assert forall|i: int|
            0 <= i < ps.len() && ps[i].0 == key && (forall|j: int| 0 <= j < i ==> ps[j].0 != key)
                implies pair_lookup(ps, key) == Some(ps[i].1) by {
            if i > 0 {
                assert(ps.drop_first()[i - 1] == ps[i]);
                assert forall|j: int| 0 <= j < i - 1 implies ps.drop_first()[j].0 != key by {
                    assert(ps.drop_first()[j] == ps[j + 1]);
                }
            }
        }
        if forall|j: int| 0 <= j < ps.len() ==> ps[j].0 != key {
            assert forall|j: int| 0 <= j < ps.drop_first().len() implies ps.drop_first()[j].0 != key by {
                assert(ps.drop_first()[j] == ps[j + 1]);
            }
        }
    }
}

/// Setting an attribute and reading it back gives the value set, and
/// leaves every other attribute reading as before.
pub proof fn law_attribute_read_after_write(
    ps: Seq<(Seq<char>, Seq<char>)>,
    key: Seq<char>,
    value: Seq<char>,
    other: Seq<char>,
)
    requires
        other != key,
    ensures
        pair_lookup(set_pair(ps, key, value), key) == Some(value),
        pair_lookup(set_pair(ps, key, value), other) == pair_lookup(ps, other),
{
    let after = set_pair(ps, key, value);
    lemma_key_index_lookup(ps, key);
    lemma_lookup_from_front(after, key);
    lemma_lookup_from_front(after, other);
    lemma_lookup_from_front(ps, other);
    match key_index(ps, key) {
        Some(i) => {
            assert(after[i] == (key, value));
            assert forall|j: int| 0 <= j < i implies after[j].0 != key by {
                assert(after[j] == ps[j]);
            }
        },
        None => {
            assert(after[ps.len() as int] == (key, value));
            assert forall|j: int| 0 <= j < ps.len() implies after[j].0 != key by {
                assert(after[j] == ps[j]);
            }
        },
    }
    if exists|j: int| 0 <= j < ps.len() && ps[j].0 == other {
        lemma_first_with_key(ps, other);
        let k = choose|k: int|
            0 <= k < ps.len() && ps[k].0 == other && forall|j: int| 0 <= j < k ==> ps[j].0 != other;
        assert(after[k] == ps[k]);
        assert forall|j: int| 0 <= j < k implies after[j].0 != other by {
            assert(after[j].0 == ps[j].0 || after[j].0 == key);
        }
    } else {
        assert forall|j: int| 0 <= j < after.len() implies after[j].0 != other by {
            if j < ps.len() {
                assert(after[j].0 == ps[j].0 || after[j].0 == key);
            }
        }
    }
}

proof fn lemma_first_with_key(ps: Seq<(Seq<char>, Seq<char>)>, key: Seq<char>)
    requires
        exists|j: int| 0 <= j < ps.len() && ps[j].0 == key,
    ensures
        exists|k: int| 0 <= k < ps.len() && ps[k].0 == key && forall|j: int| 0 <= j < k ==> ps[j].0 != key,
{
    lemma_key_index_lookup(ps, key);
}

/// The value `get_attribute` reads is the first pair's of the key.
pub proof fn lemma_attr_value_is_lookup(e: Element, key: Seq<char>)
    ensures
        attr_value(e, key) == pair_lookup(attr_pairs(e.attributes@), key),
{
    lemma_attr_in_pairs(e.attributes@, key);
}

} // verus!
