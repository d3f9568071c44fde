use vstd::prelude::*;

use crate::text::{
    char_is_uppercase, char_is_whitespace, char_upper, is_uppercase, is_whitespace, join_spaces, lemma_trim_idempotent,
    lemma_trim_keeps, push_char, str_eq,
    to_uppercase, trim, trim_seq, words_of, split_char, split_seq, strings_seq,
};

verus! {

/// A registered user. Timestamps are microseconds.
#[derive(Clone, Debug)]
pub struct User {
    pub id: i64,
    pub email: String,
    pub first_name: Option<String>,
    pub last_name: Option<String>,
    pub phone: Option<String>,
    pub created_at: i64,
    pub updated_at: i64,
    pub version: i64,
    pub roles: Vec<String>,
}

/// The fields of a user to create.
#[derive(Clone, Debug)]
pub struct CreateUser {
    pub email: String,
    pub first_name: Option<String>,
    pub last_name: Option<String>,
    pub phone: Option<String>,
}

/// The fields of a user to update.
#[derive(Clone, Debug)]
pub struct UpdateUser {
    pub email: String,
    pub first_name: Option<String>,
    pub last_name: Option<String>,
    pub phone: Option<String>,
}

/// Field to prioritize when searching for a user.
#[derive(Clone, Copy, Debug, PartialEq, Eq)]
pub enum UserSearchBy {
    FirstName,
    LastName,
    Email,
}

/// A user found by a search.
#[derive(Clone, Debug)]
pub struct UserSearchResult {
    pub id: i64,
    pub first_name: Option<String>,
    pub last_name: Option<String>,
    pub email: String,
    /// Whether the user rsvped to event_id, if specified.
    pub rsvped: Option<bool>,
}

/// `word` with its first character upper-cased.
pub open spec fn capitalize(word: Seq<char>) -> Seq<char> {
    char_upper(word[0]) + word.drop_first()
}

/// A name as stored: kept as written (but trimmed) if it has any uppercase; otherwise
/// each whitespace-separated word capitalized, joined by single spaces.
pub open spec fn normalized(name: Seq<char>) -> Seq<char> {
    if exists|i: int| 0 <= i < name.len() && char_is_uppercase(#[trigger] name[i]) {
        trim_seq(name)
    } else {
        join_spaces(words_of(name).map_values(|w: Seq<char>| capitalize(w)))
    }
}

proof fn lemma_words_nonempty(s: Seq<char>)
    ensures
        forall|k: int| 0 <= k < words_of(s).len() ==> #[trigger] words_of(s)[k].len() > 0,
        s.len() > 0 && !char_is_whitespace(s.last()) ==> words_of(s).len() > 0,
    decreases s.len(),
{
    if s.len() > 0 {
        lemma_words_nonempty(s.drop_last());
        let prev = words_of(s.drop_last());
        let ws = words_of(s);
        assert forall|k: int| 0 <= k < ws.len() implies #[trigger] ws[k].len() > 0 by {
            if k < prev.len() {
                assert(prev[k].len() > 0);
            }
        }
    }
}

proof fn lemma_join_push_last(ws: Seq<Seq<char>>, c: char)
    requires
        ws.len() > 0,
    ensures
        join_spaces(ws.update(ws.len() - 1, ws.last().push(c))) == join_spaces(ws).push(c),
{
    let nw = ws.update(ws.len() - 1, ws.last().push(c));
    if ws.len() == 1 {
    } else {
        assert(nw.drop_last() =~= ws.drop_last());
        assert(join_spaces(nw) =~= join_spaces(ws).push(c));
    }
}

fn normalize_one(name: &String) -> (r: String)
    ensures
        r@ == normalized(name@),
{
    let s = name.as_str();
    let n = s.unicode_len();
    let mut i: usize = 0;
    while i < n
        invariant
            n == s@.len(),
            s@ == name@,
            i <= n,
            forall|k: int| 0 <= k < i ==> !char_is_uppercase(#[trigger] s@[k]),
        decreases n - i,
    {
        if is_uppercase(s.get_char(i)) {
            return trim(s);
        }
        i = i + 1;
    }
    let ghost cap = |w: Seq<char>| capitalize(w);
    let mut out = String::new();
    let mut any_word = false;
    let mut prev_ws = true;
    let mut i: usize = 0;
    while i < n
        invariant
            n == s@.len(),
            i <= n,
            any_word == (words_of(s@.take(i as int)).len() > 0),
            prev_ws == (i == 0 || char_is_whitespace(s@[i - 1])),
            out@ == join_spaces(words_of(s@.take(i as int)).map_values(cap)),
            cap == (|w: Seq<char>| capitalize(w)),
        decreases n - i,
    {
        let c = s.get_char(i);
        let ghost t = s@.take(i as int);
        let ghost t1 = s@.take(i + 1);
        let ghost ws = words_of(t);
        proof {
            assert(t1.drop_last() =~= t);
            assert(t1.last() == c);
            lemma_words_nonempty(t);
            if i > 0 {
                assert(t1[t1.len() - 2] == s@[i - 1]);
            }
        }
        let w = is_whitespace(c);
        if w {
            proof {
                assert(words_of(t1) == ws);
            }
        } else if prev_ws {
            if any_word {
                out.append(" ");
            }
            let up = to_uppercase(c);
            out.append(up.as_str());
            proof {
                assert(words_of(t1) == ws.push(seq![c]));
                assert(capitalize(seq![c]) =~= char_upper(c));
                assert(ws.push(seq![c]).map_values(cap) =~= ws.map_values(cap).push(char_upper(c)));
                if ws.len() > 0 {
                    assert(ws.push(seq![c]).map_values(cap).drop_last() =~= ws.map_values(cap));
                }
            }
            any_word = true;
        } else {
            push_char(&mut out, c);
            proof {
                assert(words_of(t1) == ws.update(ws.len() - 1, ws.last().push(c)));
                let last = ws.last();
                assert(last.len() > 0);
                assert(capitalize(last.push(c)) =~= capitalize(last).push(c));
                assert(ws.update(ws.len() - 1, last.push(c)).map_values(cap) =~= ws.map_values(cap).update(
                    ws.len() - 1,
                    ws.map_values(cap).last().push(c),
                ));
                lemma_join_push_last(ws.map_values(cap), c);
            }
        }
        prev_ws = w;
        i = i + 1;
    }
    proof {
        assert(s@.take(n as int) =~= s@);
    }
    out
}

/// A name holding an uppercase letter is kept as written, only trimmed, and normalizing it
/// again changes nothing.
pub proof fn lemma_cased_name_normalization_idempotent(name: Seq<char>, i: int)
    requires
        0 <= i < name.len(),
        char_is_uppercase(name[i]),
        !char_is_whitespace(name[i]),
    ensures
        normalized(name) == trim_seq(name),
        normalized(normalized(name)) == normalized(name),
{
    lemma_trim_keeps(name, i);
    lemma_trim_idempotent(name);
    let t = trim_seq(name);
    let k = choose|k: int| 0 <= k < t.len() && t[k] == name[i];
    assert(char_is_uppercase(t[k]));
}

/// Whether `s` holds a character that `char::is_uppercase` accepts.
pub open spec fn holds_uppercase(s: Seq<char>) -> bool {
    exists|i: int| 0 <= i < s.len() && char_is_uppercase(#[trigger] s[i])
}

/// Whether upper-casing the first character of each word of `name` gives one or more
/// characters, none of them whitespace.
pub open spec fn firsts_upper_case_to_letters(name: Seq<char>) -> bool {
    forall|k: int| 0 <= k < words_of(name).len() ==> {
        let up = #[trigger] char_upper(words_of(name)[k][0]);
        up.len() > 0 && forall|j: int| 0 <= j < up.len() ==> !char_is_whitespace(#[trigger] up[j])
    }
}

/// The names on which a second normalization is shown to change nothing: those that hold an
/// uppercase character that is not whitespace; and, among those without an uppercase
/// character, those without words and those whose normalized form holds an uppercase
/// character, where the first character of each word upper-cases to one or more characters
/// that are not whitespace.
pub open spec fn normalization_settles(name: Seq<char>) -> bool {
    ||| exists|i: int| 0 <= i < name.len() && char_is_uppercase(#[trigger] name[i]) && !char_is_whitespace(name[i])
    ||| !holds_uppercase(name) && words_of(name).len() == 0
    ||| !holds_uppercase(name) && holds_uppercase(normalized(name)) && firsts_upper_case_to_letters(name)
}

/// A name as `normalize_name` stores it: absent stays absent, a given name is normalized.
pub open spec fn normalized_name(name: Option<Seq<char>>) -> Option<Seq<char>> {
    match name {
        Some(n) => Some(normalized(n)),
        None => None,
    }
}

proof fn lemma_words_not_whitespace(s: Seq<char>)
    ensures
        forall|k: int, j: int|
            0 <= k < words_of(s).len() && 0 <= j < words_of(s)[k].len() ==> !char_is_whitespace(
                #[trigger] words_of(s)[k][j],
            ),
    decreases s.len(),
{
    if s.len() > 0 {
        lemma_words_not_whitespace(s.drop_last());
        lemma_words_nonempty(s.drop_last());
        let prev = words_of(s.drop_last());
        let ws = words_of(s);
        assert forall|k: int, j: int| 0 <= k < ws.len() && 0 <= j < ws[k].len() implies !char_is_whitespace(
            #[trigger] ws[k][j],
        ) by {
            if k < prev.len() && j < prev[k].len() {
                assert(!char_is_whitespace(prev[k][j]));
            }
        }
    }
}

proof fn lemma_join_ends(ws: Seq<Seq<char>>)
    requires
        ws.len() > 0,
        forall|k: int| 0 <= k < ws.len() ==> #[trigger] ws[k].len() > 0,
    ensures
        join_spaces(ws).len() > 0,
        join_spaces(ws)[0] == ws[0][0],
        join_spaces(ws).last() == ws.last().last(),
    decreases ws.len(),
{
    if ws.len() > 1 {
        lemma_join_ends(ws.drop_last());
        assert(ws.drop_last()[0] == ws[0]);
    }
}

/// Normalizing a name a second time changes nothing, on every name where
/// `normalization_settles` holds.
pub proof fn lemma_normalization_idempotent(name: Seq<char>)
    requires
        normalization_settles(name),
    ensures
        normalized(normalized(name)) == normalized(name),
{
    if exists|i: int| 0 <= i < name.len() && char_is_uppercase(#[trigger] name[i]) && !char_is_whitespace(name[i]) {
        let i = choose|i: int| 0 <= i < name.len() && char_is_uppercase(#[trigger] name[i]) && !char_is_whitespace(name[i]);
        lemma_cased_name_normalization_idempotent(name, i);
    } else if words_of(name).len() == 0 {
        assert(normalized(name) =~= Seq::<char>::empty());
        assert(words_of(Seq::<char>::empty()) =~= Seq::<Seq<char>>::empty());
        assert(join_spaces(Seq::<Seq<char>>::empty()) =~= Seq::<char>::empty());
    } else {
        let ws = words_of(name);
        let cap = |w: Seq<char>| capitalize(w);
        let caps = ws.map_values(cap);
        let n = join_spaces(caps);
        assert(n == normalized(name));
        lemma_words_nonempty(name);
        lemma_words_not_whitespace(name);
        assert forall|k: int| 0 <= k < caps.len() implies #[trigger] caps[k].len() > 0 by {
            assert(char_upper(ws[k][0]).len() > 0);
        }
        lemma_join_ends(caps);
        let up0 = char_upper(ws[0][0]);
        assert(up0.len() > 0);
        assert(caps[0][0] == up0[0]);
        assert(!char_is_whitespace(n[0]));
        let last = ws.last();
        let upl = char_upper(last[0]);
        assert(upl == char_upper(ws[ws.len() - 1][0]));
        assert(upl.len() > 0);
        if last.len() > 1 {
            assert(caps.last().last() == last.last());
            assert(!char_is_whitespace(ws[ws.len() - 1][last.len() - 1]));
        } else {
            assert(caps.last().last() == upl.last());
            assert(!char_is_whitespace(upl[upl.len() - 1]));
        }
        assert(!char_is_whitespace(n.last()));
        assert(trim_seq(n) == n);
    }
}

/// Normalizing never loses a name: a given name stays given, an absent one absent.
pub proof fn lemma_given_name_stays_given(name: Option<Seq<char>>)
    ensures
        normalized_name(name) is Some == name is Some,
{
}

/// Normalizing a stored name a second time changes nothing, where the name settles in one
/// pass.
pub proof fn lemma_normalized_name_idempotent(name: Option<Seq<char>>)
    requires
        name matches Some(n) ==> normalization_settles(n),
    ensures
        normalized_name(normalized_name(name)) == normalized_name(name),
{
    if let Some(n) = name {
        lemma_normalization_idempotent(n);
    }
}

/// Keep the name as written if it has any uppercase; otherwise capitalize each whitespace-split word.
pub fn normalize_name(name: &Option<String>) -> (r: Option<String>)
    ensures
        match name {
            None => r is None,
            Some(n) => r is Some && r->0@ == normalized(n@),
        },
        opt_view(r) == normalized_name(opt_view(*name)),
{
    match name {
        None => None,
        Some(n) => Some(normalize_one(n)),
    }
}

/// The pieces of `pieces` that are not empty, in order.
pub open spec fn nonempty(pieces: Seq<Seq<char>>) -> Seq<Seq<char>>
    decreases pieces.len(),
{
    if pieces.len() == 0 {
        Seq::empty()
    } else if pieces.last().len() == 0 {
        nonempty(pieces.drop_last())
    } else {
        nonempty(pieces.drop_last()).push(pieces.last())
    }
}

/// The roles of a comma-separated role list, skipping empty entries.
pub fn parse_roles(roles: &str) -> (r: Vec<String>)
    ensures
        strings_seq(r@) == nonempty(split_seq(roles@, ',')),
{
    let pieces = split_char(roles, ',');
    let ghost ps = split_seq(roles@, ',');
    let mut r: Vec<String> = Vec::new();
    let mut i: usize = 0;
    while i < pieces.len()
        invariant
            i <= pieces@.len(),
            strings_seq(pieces@) == ps,
            strings_seq(r@) == nonempty(ps.take(i as int)),
        decreases pieces@.len() - i,
    {
        proof {
            assert(ps.take(i + 1).drop_last() =~= ps.take(i as int));
            assert(ps.take(i + 1).last() == pieces@[i as int]@);
        }
        if pieces[i].as_str().unicode_len() > 0 {
            let ghost old = r@;
            r.push(pieces[i].clone());
            proof {
                assert(strings_seq(r@) =~= strings_seq(old).push(pieces@[i as int]@));
            }
        }
        i = i + 1;
    }
    proof {
        assert(ps.take(i as int) =~= ps);
    }
    r
}

pub open spec fn opt_view(o: Option<String>) -> Option<Seq<char>> {
    match o {
        Some(s) => Some(s@),
        None => None,
    }
}

fn opt_str_eq(a: &Option<String>, b: &Option<String>) -> (r: bool)
    ensures
        r == (opt_view(*a) == opt_view(*b)),
{
    match (a, b) {
        (Some(x), Some(y)) => str_eq(x.as_str(), y.as_str()),
        (None, None) => true,
        _ => false,
    }
}

/// A field of a user met again during an RSVP: an already-populated field is kept unless
/// overwriting is allowed.
pub open spec fn merged_field(allow_overwrite: bool, old: Option<Seq<char>>, new: Option<Seq<char>>) -> Option<Seq<char>> {
    if old is Some && !allow_overwrite { old } else { new }
}

fn merge_field(allow_overwrite: bool, old: &Option<String>, new: &Option<String>) -> (r: Option<String>)
    ensures
        opt_view(r) == merged_field(allow_overwrite, opt_view(*old), opt_view(*new)),
{
    match old {
        Some(_) if !allow_overwrite => old.clone(),
        _ => new.clone(),
    }
}

/// The name a search matches against, by the field asked for.
pub open spec fn search_target(by: Option<UserSearchBy>, query: Seq<char>) -> Seq<char> {
    match by {
        None => "any"@,
        Some(UserSearchBy::FirstName) => if query.contains(' ') { "full"@ } else { "first"@ },
        Some(UserSearchBy::LastName) => "last"@,
        Some(UserSearchBy::Email) => "email"@,
    }
}

/// `query` with `\`, `%` and `_` escaped by a backslash for a LIKE pattern.
pub open spec fn like_escaped(query: Seq<char>) -> Seq<char>
    decreases query.len(),
{
    if query.len() == 0 {
        Seq::empty()
    } else {
        let c = query.last();
        let prev = like_escaped(query.drop_last());
        if c == '\\' || c == '%' || c == '_' {
            prev.push('\\').push(c)
        } else {
            prev.push(c)
        }
    }
}

/// The number of bytes of the UTF-8 encoding of `c`.
pub open spec fn utf8_width(c: char) -> nat {
    if (c as u32) < 0x80 {
        1
    } else if (c as u32) < 0x800 {
        2
    } else if (c as u32) < 0x10000 {
        3
    } else {
        4
    }
}

/// The number of bytes of the UTF-8 encoding of `s`.
pub open spec fn utf8_len(s: Seq<char>) -> nat
    decreases s.len(),
{
    if s.len() == 0 {
        0
    } else {
        utf8_len(s.drop_last()) + utf8_width(s.last())
    }
}

/// The patterns of a user search: the escaped query, its prefix and substring LIKE
/// patterns, and the field searched.
#[derive(Clone, Debug)]
pub struct SearchParams {
    pub query: String,
    pub prefix: String,
    pub contains: String,
    pub by: &'static str,
}

/// Escapes a search query; queries shorter than 3 bytes search nothing.
pub fn search_params(query: &str, by: Option<UserSearchBy>) -> (r: Option<SearchParams>)
    ensures
        match r {
            None => utf8_len(like_escaped(trim_seq(query@))) < 3,
            Some(p) => {
                let q = like_escaped(trim_seq(query@));
                &&& utf8_len(q) >= 3
                &&& p.query@ == q
                &&& p.prefix@ == q + "%"@
                &&& p.contains@ == "%"@ + q + "%"@
                &&& p.by@ == search_target(by, q)
            },
        },
{
    let trimmed = trim(query);
    let t = trimmed.as_str();
    let n = t.unicode_len();
    let mut q = String::new();
    let mut bytes: usize = 0;
    let mut has_space = false;
    let mut i: usize = 0;
    while i < n
        invariant
            n == t@.len(),
            i <= n,
            q@ == like_escaped(t@.take(i as int)),
            bytes == (if utf8_len(q@) < 3 { utf8_len(q@) } else { 3 }),
            has_space == q@.contains(' '),
        decreases n - i,
    {
        proof {
            assert(t@.take(i + 1).drop_last() =~= t@.take(i as int));
        }
        let c = t.get_char(i);
        let ghost old_q = q@;
        if c == '\\' || c == '%' || c == '_' {
            push_char(&mut q, '\\');
            push_char(&mut q, c);
            bytes = if bytes + 2 > 3 { 3 } else { bytes + 2 };
            proof {
                assert(q@.drop_last() == old_q.push('\\'));
                assert(q@.drop_last().drop_last() == old_q);
                assert(utf8_len(q@) == utf8_len(q@.drop_last()) + utf8_width(c));
                assert(utf8_len(q@.drop_last()) == utf8_len(old_q) + utf8_width('\\'));
                assert(('\\' as u32) < 0x80);
            }
        } else {
            push_char(&mut q, c);
            let u = c as u32;
            let w: usize = if u < 0x80 { 1 } else if u < 0x800 { 2 } else if u < 0x10000 { 3 } else { 4 };
            bytes = if bytes + w > 3 { 3 } else { bytes + w };
            if c == ' ' {
                has_space = true;
            }
            proof {
                assert(q@.drop_last() == old_q);
                assert(utf8_len(q@) == utf8_len(old_q) + utf8_width(c));
                assert(w == utf8_width(c));
            }
        }
        proof {
            assert(q@.contains(' ') == (old_q.contains(' ') || (c == ' '))) by {
                if c == ' ' {
                    assert(q@[q@.len() - 1] == ' ');
                }
                if q@.contains(' ') {
                    let k = choose|k: int| 0 <= k < q@.len() && q@[k] == ' ';
                    if k < old_q.len() {
                        assert(old_q[k] == ' ');
                    }
                }
                if old_q.contains(' ') {
                    let k = choose|k: int| 0 <= k < old_q.len() && old_q[k] == ' ';
                    assert(q@[k] == ' ');
                }
            }
        }
        i = i + 1;
    }
    proof {
        assert(t@.take(n as int) =~= t@);
    }
    // Min 3 char query; don't dump the entire DB when searching for "e"
    if bytes < 3 {
        return None;
    }
    let by_name: &'static str = match by {
        None => "any",
        Some(UserSearchBy::FirstName) => if has_space { "full" } else { "first" },
        Some(UserSearchBy::LastName) => "last",
        Some(UserSearchBy::Email) => "email",
    };
    let mut prefix = q.clone();
    prefix.append("%");
    let mut contains = String::from_str("%");
    contains.append(q.as_str());
    contains.append("%");
    Some(SearchParams { query: q, prefix, contains, by: by_name })
}

impl User {
    /// Full access to everything.
    pub const ADMIN: &'static str = "admin";
    /// Can manage posts.
    pub const WRITER: &'static str = "writer";

    /// Whether the user holds `role`; an admin holds every role.
    pub fn has_role(&self, role: &str) -> (r: bool)
        ensures
            r == exists|i: int|
                0 <= i < self.roles@.len() && (#[trigger] self.roles@[i]@ == role@ || self.roles@[i]@ == User::ADMIN@),
    {
        let mut i: usize = 0;
        while i < self.roles.len()
            invariant
                i <= self.roles@.len(),
                forall|k: int| 0 <= k < i ==> !(#[trigger] self.roles@[k]@ == role@ || self.roles@[k]@ == User::ADMIN@),
            decreases self.roles@.len() - i,
        {
            let r = self.roles[i].as_str();
            if str_eq(r, role) || str_eq(r, User::ADMIN) {
                return true;
            }
            i = i + 1;
        }
        false
    }

    /// Whether the user is an admin or a writer.
    pub fn has_staff_role(&self) -> (r: bool)
        ensures
            r == exists|i: int|
                0 <= i < self.roles@.len() && (#[trigger] self.roles@[i]@ == User::ADMIN@ || self.roles@[i]@ == User::WRITER@),
    {
        let mut i: usize = 0;
        while i < self.roles.len()
            invariant
                i <= self.roles@.len(),
                forall|k: int| 0 <= k < i ==> !(#[trigger] self.roles@[k]@ == User::ADMIN@ || self.roles@[k]@ == User::WRITER@),
            decreases self.roles@.len() - i,
        {
            let r = self.roles[i].as_str();
            if str_eq(r, User::ADMIN) || str_eq(r, User::WRITER) {
                return true;
            }
            i = i + 1;
        }
        false
    }

    /// The update made when this user is met again during an RSVP: fields already set
    /// are kept unless the user was created during the session (at or after
    /// `session_created_at`); the email is always the one entered.
    pub fn rsvp_update(&self, info: &CreateUser, session_created_at: i64) -> (r: UpdateUser)
        ensures
            r.email@ == info.email@,
            opt_view(r.first_name) == merged_field(self.created_at >= session_created_at, opt_view(self.first_name), opt_view(info.first_name)),
            opt_view(r.last_name) == merged_field(self.created_at >= session_created_at, opt_view(self.last_name), opt_view(info.last_name)),
            opt_view(r.phone) == merged_field(self.created_at >= session_created_at, opt_view(self.phone), opt_view(info.phone)),
    {
        // Only overwrite already-populated fields when the user was created in this session
        let allow_overwrite = self.created_at >= session_created_at;
        UpdateUser {
            email: info.email.clone(),
            first_name: merge_field(allow_overwrite, &self.first_name, &info.first_name),
            last_name: merge_field(allow_overwrite, &self.last_name, &info.last_name),
            phone: merge_field(allow_overwrite, &self.phone, &info.phone),
        }
    }

    /// Whether an update changes nothing that is versioned: the normalized names and the phone.
    pub fn update_is_noop(&self, info: &UpdateUser) -> (r: bool)
        ensures
            r == (opt_view(self.first_name) == (match info.first_name {
                Some(n) => Some(normalized(n@)),
                None => None::<Seq<char>>,
            }) && opt_view(self.last_name) == (match info.last_name {
                Some(n) => Some(normalized(n@)),
                None => None::<Seq<char>>,
            }) && opt_view(info.phone) == opt_view(self.phone)),
    {
        let first_name = normalize_name(&info.first_name);
        let last_name = normalize_name(&info.last_name);
        opt_str_eq(&first_name, &self.first_name) && opt_str_eq(&last_name, &self.last_name) && opt_str_eq(
            &info.phone,
            &self.phone,
        )
    }
}

} // verus!
