use crate::wire::FilePath;
use crate::uri::{file_url, file_url_text, uri_file_path, uri_path_of, url_parses};
use vstd::prelude::*;
use vstd::relations::injective_on;
use vstd::set_lib::{lemma_int_range, lemma_len_subset, lemma_map_size, lemma_map_size_bound, set_int_range};

verus! {

/// Why a multi-file save request was refused.
#[derive(Clone, Copy, Debug, PartialEq, Eq, Structural)]
pub enum SaveFilesError {
    /// The user did not select exactly one directory.
    NotExactlyOnePath,
    /// A requested file name is an absolute path.
    AbsolutePath,
    /// A requested file name has more than one path component.
    MultipleComponents,
    /// A requested file name is `.` or `..`.
    SpecialPath,
    /// The selected location is not a valid URI.
    SelectedNotValidUri,
    /// The selected URI does not denote a local path.
    SelectedNotValidPath,
    /// A computed destination path could not be written as a URI.
    UniqueNotValidUri,
    /// The chooser session could not be started.
    UiClosed,
    /// The user dismissed the chooser.
    UiRejected,
}

/// A path is absolute when it starts at the root.
pub open spec fn is_absolute(s: Seq<char>) -> bool {
    s.len() > 0 && s[0] == '/'
}

/// The text after the last `/` of `t` (all of `t` when it has none).
pub open spec fn last_piece(t: Seq<char>) -> Seq<char>
    decreases t.len(),
{
    if t.len() == 0 {
        Seq::empty()
    } else if t.last() == '/' {
        Seq::empty()
    } else {
        last_piece(t.drop_last()).push(t.last())
    }
}

/// Whether the piece `p`, which follows the text `before`, names a path
/// component: empty pieces vanish, and `.` only counts at the very start.
pub open spec fn is_kept(before: Seq<char>, p: Seq<char>) -> bool {
    p.len() > 0 && (p != seq!['.'] || !before.contains('/'))
}

/// The components of the pieces of `t` that a `/` has closed.
pub open spec fn closed_components(t: Seq<char>) -> Seq<Seq<char>>
    decreases t.len(),
{
    if t.len() == 0 {
        Seq::empty()
    } else {
        let u = t.drop_last();
        if t.last() == '/' && is_kept(u.subrange(0, u.len() - last_piece(u).len()), last_piece(u)) {
            closed_components(u).push(last_piece(u))
        } else {
            closed_components(u)
        }
    }
}

/// The components of the relative path `s`, in order: the pieces between
/// slashes, without empty pieces and without `.` pieces other than a leading one.
pub open spec fn components(s: Seq<char>) -> Seq<Seq<char>> {
    let p = last_piece(s);
    if is_kept(s.subrange(0, s.len() - p.len()), p) {
        closed_components(s).push(p)
    } else {
        closed_components(s)
    }
}

/// The verdict on one requested file name.
pub open spec fn name_verdict(s: Seq<char>) -> Result<(), SaveFilesError> {
    if is_absolute(s) {
        Err(SaveFilesError::AbsolutePath)
    } else if components(s).len() > 1 {
        Err(SaveFilesError::MultipleComponents)
    } else if components(s) == seq![seq!['.']] || components(s) == seq![seq!['.', '.']] {
        Err(SaveFilesError::SpecialPath)
    } else {
        Ok(())
    }
}

/// 0 for an ordinary piece, 1 for `.`, 2 for `..`.
pub open spec fn dot_class(p: Seq<char>) -> u8 {
    if p == seq!['.'] {
        1
    } else if p == seq!['.', '.'] {
        2
    } else {
        0
    }
}

proof fn lemma_last_piece_suffix(t: Seq<char>)
    ensures
        last_piece(t).len() <= t.len(),
        last_piece(t) == t.subrange(t.len() - last_piece(t).len(), t.len() as int),
        !last_piece(t).contains('/'),
        t.subrange(0, t.len() - last_piece(t).len()).contains('/') <==> t.contains('/'),
    decreases t.len(),
{
    if t.len() > 0 {
        let u = t.drop_last();
        lemma_last_piece_suffix(u);
        if t.last() == '/' {
            assert(t.subrange(0, t.len() as int) =~= t);
            assert(t.contains('/')) by { assert(t[t.len() - 1] == '/'); }
        } else {
            let lp = last_piece(u);
            assert(last_piece(t) =~= t.subrange(t.len() - last_piece(t).len(), t.len() as int));
            let pre = t.subrange(0, t.len() - last_piece(t).len());
            assert(pre =~= u.subrange(0, u.len() - lp.len()));
            if t.contains('/') {
                let k = choose|k: int| 0 <= k < t.len() && t[k] == '/';
                assert(u[k] == '/');
            }
            if last_piece(t).contains('/') {
                let k = choose|k: int| 0 <= k < last_piece(t).len() && last_piece(t)[k] == '/';
                assert(lp[k] == '/');
            }
        }
    }
}

/// Checks one requested file name: not absolute, a single component, and
/// neither `.` nor `..`.
pub fn validate_file_name(name: &String) -> (r: Result<(), SaveFilesError>)
    ensures
        r == name_verdict(name@),
{
    let s = name.as_str();
    let n = s.unicode_len();
    let ghost g = name@;
    if n > 0 && s.get_char(0) == '/' {
        return Err(SaveFilesError::AbsolutePath);
    }
    let mut count: usize = 0;
    let mut first_class: u8 = 0;
    let mut cur_len: usize = 0;
    let mut cur_class: u8 = 0;
    let mut seen_slash = false;
    let mut i: usize = 0;
    while i < n
        invariant
            n == g.len(),
            s@ == g,
            i <= n,
            count == closed_components(g.subrange(0, i as int)).len(),
            count > 0 ==> first_class == dot_class(closed_components(g.subrange(0, i as int))[0]),
            cur_len == last_piece(g.subrange(0, i as int)).len(),
            cur_class == dot_class(last_piece(g.subrange(0, i as int))),
            seen_slash == g.subrange(0, i as int).contains('/'),
            count + cur_len <= i,
        decreases n - i,
    {
        let c = s.get_char(i);
        let ghost t = g.subrange(0, i as int);
        let ghost t2 = g.subrange(0, i + 1);
        assert(t2.drop_last() =~= t);
        assert(t2.last() == c);
        proof { lemma_last_piece_suffix(t); }
        if c == '/' {
            let kept = cur_len > 0 && (cur_class != 1 || !seen_slash);
            assert(kept == is_kept(t.subrange(0, t.len() - last_piece(t).len()), last_piece(t))) by {
                if last_piece(t).len() > 0 && last_piece(t) != seq!['.'] {
                    assert(dot_class(last_piece(t)) != 1);
                }
            }
            if kept {
                if count == 0 {
                    first_class = cur_class;
                }
                count = count + 1;
                assert(closed_components(t2)[0] == closed_components(t).push(last_piece(t))[0]);
            }
            cur_len = 0;
            cur_class = 0;
            seen_slash = true;
            assert(t2.contains('/')) by { assert(t2[t2.len() - 1] == '/'); }
            assert(dot_class(Seq::<char>::empty()) == 0) by {
                assert(Seq::<char>::empty().len() != seq!['.'].len());
                assert(Seq::<char>::empty().len() != seq!['.', '.'].len());
            }
        } else {
            let ghost old_p = last_piece(t);
            let ghost new_p = old_p.push(c);
            assert(last_piece(t2) == new_p);
            let new_class: u8 = if c == '.' && cur_len == 0 {
                1
            } else if c == '.' && cur_len == 1 && cur_class == 1 {
                2
            } else {
                0
            };
            assert(new_class == dot_class(new_p)) by {
                if c == '.' && cur_len == 0 {
                    assert(new_p =~= seq!['.']);
                } else if c == '.' && cur_len == 1 && cur_class == 1 {
                    assert(old_p == seq!['.']);
                    assert(new_p =~= seq!['.', '.']);
                } else {
                    if new_p == seq!['.'] {
                        assert(new_p.len() == 1);
                        assert(new_p[0] == '.');
                    }
                    if new_p == seq!['.', '.'] {
                        assert(new_p[1] == '.');
                        assert(old_p =~= seq!['.']);
                    }
                }
            }
            cur_len = cur_len + 1;
            cur_class = new_class;
            proof {
                if t2.contains('/') {
                    let k = choose|k: int| 0 <= k < t2.len() && t2[k] == '/';
                    assert(t[k] == '/');
                }
                if t.contains('/') {
                    let k = choose|k: int| 0 <= k < t.len() && t[k] == '/';
                    assert(t2[k] == '/');
                }
            }
        }
        i = i + 1;
    }
    assert(g.subrange(0, n as int) =~= g);
    proof { lemma_last_piece_suffix(g); }
    let last_kept = cur_len > 0 && (cur_class != 1 || !seen_slash);
    assert(last_kept == is_kept(g.subrange(0, g.len() - last_piece(g).len()), last_piece(g))) by {
        if last_piece(g).len() > 0 && last_piece(g) != seq!['.'] {
            assert(dot_class(last_piece(g)) != 1);
        }
    }
    let total: usize = if last_kept { count + 1 } else { count };
    let only_class: u8 = if count == 0 { cur_class } else { first_class };
    if total > 1 {
        return Err(SaveFilesError::MultipleComponents);
    }
    let ghost cs = components(g);
    assert(cs.len() == total);
    if total == 1 {
        assert(cs[0] == if count == 0 { last_piece(g) } else { closed_components(g)[0] });
        assert(only_class == dot_class(cs[0]));
    }
    if total == 1 && only_class != 0 {
        assert(cs =~= seq![cs[0]]);
        return Err(SaveFilesError::SpecialPath);
    }
    proof {
        if cs == seq![seq!['.']] || cs == seq![seq!['.', '.']] {
            assert(cs.len() == 1);
            assert(dot_class(cs[0]) != 0);
        }
    }
    Ok(())
}

/// Checks a whole batch of requested names; the first refused name decides.
pub fn validate_file_names(names: &Vec<String>) -> (r: Result<(), SaveFilesError>)
    ensures
        r is Ok <==> forall|k: int| 0 <= k < names@.len() ==> name_verdict(#[trigger] names@[k]@) is Ok,
        r is Err ==> exists|k: int|
            0 <= k < names@.len() && r == name_verdict(#[trigger] names@[k]@) && forall|j: int|
                0 <= j < k ==> name_verdict(#[trigger] names@[j]@) is Ok,
{
    let mut i: usize = 0;
    while i < names.len()
        invariant
            i <= names@.len(),
            forall|j: int| 0 <= j < i ==> name_verdict(#[trigger] names@[j]@) is Ok,
        decreases names@.len() - i,
    {
        let v = validate_file_name(&names[i]);
        if v.is_err() {
            return v;
        }
        i = i + 1;
    }
    Ok(())
}

/// The decimal digit for `d`.
pub open spec fn digit_char(d: nat) -> char {
    if d == 0 {
        '0'
    } else if d == 1 {
        '1'
    } else if d == 2 {
        '2'
    } else if d == 3 {
        '3'
    } else if d == 4 {
        '4'
    } else if d == 5 {
        '5'
    } else if d == 6 {
        '6'
    } else if d == 7 {
        '7'
    } else if d == 8 {
        '8'
    } else {
        '9'
    }
}

/// `n` written in decimal, without leading zeros.
pub open spec fn decimal(n: nat) -> Seq<char>
    decreases n,
{
    if n < 10 {
        seq![digit_char(n)]
    } else {
        decimal(n / 10).push(digit_char(n % 10))
    }
}

/// The position of the first `c` in `s`, or its length when it has none.
pub open spec fn first_index(s: Seq<char>, c: char) -> int
    decreases s.len(),
{
    if s.len() == 0 || s[0] == c {
        0
    } else {
        1 + first_index(s.drop_first(), c)
    }
}

/// The text of `name` before its first `/`: for a name that the validator
/// accepts, the one component that it names.
pub open spec fn leaf(name: Seq<char>) -> Seq<char> {
    name.subrange(0, first_index(name, '/'))
}

/// The `i`-th numbered variant of `name`: the counter goes in parentheses
/// before the first `.`, or at the end when there is none.
pub open spec fn numbered(name: Seq<char>, i: nat) -> Seq<char> {
    let k = first_index(name, '.');
    name.subrange(0, k) + seq![' ', '('] + decimal(i) + seq![')'] + name.subrange(k, name.len() as int)
}

/// The names that a directory listing holds.
pub open spec fn name_set(listing: Seq<String>) -> Set<Seq<char>> {
    Set::new(|n: Seq<char>| exists|i: int| 0 <= i < listing.len() && #[trigger] listing[i]@ == n)
}

/// `out` is the name that `name` receives beside the names in `taken`: the
/// name itself when it is free, else its first free numbered variant.
pub open spec fn is_free_choice(taken: Set<Seq<char>>, name: Seq<char>, out: Seq<char>) -> bool {
    if !taken.contains(name) {
        out == name
    } else {
        exists|i: nat|
            1 <= i <= u64::MAX && out == numbered(name, i) && !taken.contains(out) && forall|j: nat|
                1 <= j < i ==> taken.contains(#[trigger] numbered(name, j))
    }
}

/// `name` and all of its numbered variants up to `u64::MAX` are taken.
pub open spec fn no_free_variant(taken: Set<Seq<char>>, name: Seq<char>) -> bool {
    taken.contains(name) && forall|i: nat| 1 <= i <= u64::MAX ==> taken.contains(#[trigger] numbered(name, i))
}

proof fn lemma_first_index(s: Seq<char>, c: char, k: int)
    requires
        0 <= k <= s.len(),
        forall|m: int| 0 <= m < k ==> s[m] != c,
        k == s.len() || s[k] == c,
    ensures
        first_index(s, c) == k,
    decreases k,
{
    if k > 0 {
        lemma_first_index(s.drop_first(), c, k - 1);
    }
}

proof fn lemma_no_slash(t: Seq<char>)
    requires
        !t.contains('/'),
    ensures
        closed_components(t) == Seq::<Seq<char>>::empty(),
        last_piece(t) == t,
    decreases t.len(),
{
    if t.len() > 0 {
        let u = t.drop_last();
        if u.contains('/') {
            let j = choose|j: int| 0 <= j < u.len() && u[j] == '/';
            assert(t[j] == '/');
        }
        assert(t[t.len() - 1] != '/');
        lemma_no_slash(u);
        assert(u.push(t.last()) =~= t);
    }
}

proof fn lemma_first_component(s: Seq<char>, k: int, m: int)
    requires
        0 < k < m <= s.len(),
        s[k] == '/',
        forall|j: int| 0 <= j < k ==> s[j] != '/',
    ensures
        closed_components(s.subrange(0, m)).len() >= 1,
        closed_components(s.subrange(0, m))[0] == s.subrange(0, k),
    decreases m,
{
    let t = s.subrange(0, m);
    let u = t.drop_last();
    if m == k + 1 {
        let pre = s.subrange(0, k);
        assert(u =~= pre);
        assert(!pre.contains('/')) by {
            if pre.contains('/') {
                let j = choose|j: int| 0 <= j < pre.len() && pre[j] == '/';
                assert(s[j] == '/');
            }
        }
        lemma_no_slash(pre);
        assert(pre.subrange(0, 0) =~= Seq::<char>::empty());
        assert(pre.len() > 0);
        assert(t.last() == '/');
    } else {
        assert(u =~= s.subrange(0, m - 1));
        lemma_first_component(s, k, m - 1);
    }
}

/// For a name that the validator accepts and that names a component, its
/// leaf is that component.
pub proof fn accepted_leaf_is_component(s: Seq<char>)
    requires
        name_verdict(s) is Ok,
        components(s).len() == 1,
    ensures
        components(s)[0] == leaf(s),
{
    lemma_first_index_bounds(s, '/');
    let k = first_index(s, '/');
    lemma_first_index_prefix(s, '/');
    if k == s.len() {
        assert(!s.contains('/')) by {
            if s.contains('/') {
                let j = choose|j: int| 0 <= j < s.len() && s[j] == '/';
                assert(s[j] != '/');
            }
        }
        lemma_no_slash(s);
        assert(s.subrange(0, s.len() as int) =~= s);
        assert(s.subrange(0, 0) =~= Seq::<char>::empty());
    } else {
        assert(k > 0);
        lemma_first_component(s, k, s.len() as int);
        assert(s.subrange(0, s.len() as int) =~= s);
    }
}

proof fn lemma_first_index_prefix(s: Seq<char>, c: char)
    ensures
        forall|j: int| 0 <= j < first_index(s, c) ==> s[j] != c,
        first_index(s, c) < s.len() ==> s[first_index(s, c)] == c,
    decreases s.len(),
{
    if s.len() > 0 && s[0] != c {
        let d = s.drop_first();
        lemma_first_index_prefix(d, c);
        lemma_first_index_bounds(d, c);
        assert(first_index(s, c) == 1 + first_index(d, c));
        assert forall|j: int| 0 <= j < first_index(s, c) implies s[j] != c by {
            if j > 0 {
                assert(s[j] == d[j - 1]);
            }
        }
        if first_index(s, c) < s.len() {
            assert(s[first_index(s, c)] == d[first_index(d, c)]);
        }
    }
}

/// The position of the first `c` in `name`, or its length.
fn find_char(name: &String, c: char) -> (k: usize)
    ensures
        k as int == first_index(name@, c),
        k <= name@.len(),
{
    let s = name.as_str();
    let n = s.unicode_len();
    let mut k: usize = 0;
    while k < n && s.get_char(k) != c
        invariant
            k <= n,
            n == name@.len(),
            s@ == name@,
            forall|m: int| 0 <= m < k ==> name@[m] != c,
        decreases n - k,
    {
        k = k + 1;
    }
    proof { lemma_first_index(name@, c, k as int); }
    k
}

/// The text of `name` before its first `/`.
pub fn leaf_name(name: &String) -> (r: String)
    ensures
        r@ == leaf(name@),
{
    let k = find_char(name, '/');
    String::from_str(name.as_str().substring_char(0, k))
}

fn digit_str(d: u64) -> (r: &'static str)
    requires
        d < 10,
    ensures
        r@ == seq![digit_char(d as nat)],
{
    proof {
        reveal_strlit("0");
        reveal_strlit("1");
        reveal_strlit("2");
        reveal_strlit("3");
        reveal_strlit("4");
        reveal_strlit("5");
        reveal_strlit("6");
        reveal_strlit("7");
        reveal_strlit("8");
        reveal_strlit("9");
    }
    if d == 0 {
        "0"
    } else if d == 1 {
        "1"
    } else if d == 2 {
        "2"
    } else if d == 3 {
        "3"
    } else if d == 4 {
        "4"
    } else if d == 5 {
        "5"
    } else if d == 6 {
        "6"
    } else if d == 7 {
        "7"
    } else if d == 8 {
        "8"
    } else {
        "9"
    }
}

/// `n` written in decimal.
pub fn decimal_string(n: u64) -> (r: String)
    ensures
        r@ == decimal(n as nat),
    decreases n,
{
    if n < 10 {
        String::from_str(digit_str(n))
    } else {
        let mut s = decimal_string(n / 10);
        s.append(digit_str(n % 10));
        s
    }
}

/// Whether the listing holds `name`.
fn is_listed(listing: &Vec<String>, name: &String) -> (r: bool)
    ensures
        r == name_set(listing@).contains(name@),
{
    let mut i: usize = 0;
    while i < listing.len()
        invariant
            i <= listing@.len(),
            forall|j: int| 0 <= j < i ==> listing@[j]@ != name@,
        decreases listing@.len() - i,
    {
        if listing[i] == *name {
            return true;
        }
        i = i + 1;
    }
    false
}

/// Builds the `i`-th numbered variant of `name`, whose first `.` is at `k`.
fn numbered_string(name: &String, k: usize, i: u64) -> (r: String)
    requires
        k as int == first_index(name@, '.'),
        k <= name@.len(),
    ensures
        r@ == numbered(name@, i as nat),
{
    proof {
        reveal_strlit(" (");
        reveal_strlit(")");
    }
    let s = name.as_str();
    let n = s.unicode_len();
    let mut r = String::from_str(s.substring_char(0, k));
    r.append(" (");
    let d = decimal_string(i);
    r.append(d.as_str());
    r.append(")");
    r.append(s.substring_char(k, n));
    r
}

proof fn lemma_decimal_len(n: nat)
    ensures
        decimal(n).len() >= 1,
    decreases n,
{
    if n >= 10 {
        lemma_decimal_len(n / 10);
    }
}

proof fn lemma_decimal_injective(a: nat, b: nat)
    requires
        decimal(a) == decimal(b),
    ensures
        a == b,
    decreases a,
{
    if a < 10 && b >= 10 {
        lemma_decimal_len(b / 10);
        assert(decimal(b).len() == decimal(b / 10).len() + 1);
        assert(decimal(a).len() == 1);
        assert(decimal(a).len() != decimal(b).len());
    } else if a >= 10 && b < 10 {
        lemma_decimal_len(a / 10);
        assert(decimal(a).len() == decimal(a / 10).len() + 1);
        assert(decimal(b).len() == 1);
        assert(decimal(a).len() != decimal(b).len());
    } else if a >= 10 && b >= 10 {
        assert(decimal(a).last() == digit_char(a % 10));
        assert(decimal(b).last() == digit_char(b % 10));
        assert(decimal(a).drop_last() =~= decimal(a / 10));
        assert(decimal(b).drop_last() =~= decimal(b / 10));
        lemma_decimal_injective(a / 10, b / 10);
    } else {
        assert(decimal(a)[0] == digit_char(a));
        assert(decimal(b)[0] == digit_char(b));
    }
}

proof fn lemma_numbered_injective(name: Seq<char>, a: nat, b: nat)
    ensures
        numbered(name, a).len() > name.len(),
        numbered(name, a) == numbered(name, b) ==> a == b,
{
    lemma_decimal_len(a);
    lemma_first_index_bounds(name, '.');
    let k = first_index(name, '.');
    let p = name.subrange(0, k) + seq![' ', '('];
    let na = numbered(name, a);
    let nb = numbered(name, b);
    let rest = name.subrange(k, name.len() as int);
    assert(na == p + decimal(a) + seq![')'] + rest);
    assert(nb == p + decimal(b) + seq![')'] + rest);
    if na == nb {
        let la = decimal(a).len();
        assert(decimal(b).len() == la);
        assert(decimal(a) =~= na.subrange(p.len() as int, (p.len() + la) as int));
        assert(decimal(b) =~= nb.subrange(p.len() as int, (p.len() + la) as int));
        lemma_decimal_injective(a, b);
    }
}

proof fn lemma_first_index_bounds(s: Seq<char>, c: char)
    ensures
        0 <= first_index(s, c) <= s.len(),
    decreases s.len(),
{
    if s.len() > 0 && s[0] != c {
        lemma_first_index_bounds(s.drop_first(), c);
    }
}

/// A listing held in memory never takes a name together with all of its
/// numbered variants up to `u64::MAX`: every requested name gets a
/// destination.
pub proof fn listing_leaves_a_free_name(listing: Seq<String>, name: Seq<char>)
    requires
        listing.len() <= usize::MAX,
    ensures
        !no_free_variant(name_set(listing), name),
{
    let taken = name_set(listing);
    if no_free_variant(taken, name) {
        let n: int = u64::MAX as int + 1;
        let f = |i: int| if i == 0 { name } else { numbered(name, i as nat) };
        let range = set_int_range(0, n);
        lemma_int_range(0, n);
        assert(injective_on(f, range)) by {
            assert forall|x: int, y: int| range.contains(x) && range.contains(y) && #[trigger] f(x) == #[trigger] f(y) implies x == y by {
                lemma_numbered_injective(name, x as nat, y as nat);
                lemma_numbered_injective(name, y as nat, x as nat);
            }
        }
        let variants = range.map(f);
        lemma_map_size(range, variants, f);
        let indices = set_int_range(0, listing.len() as int);
        lemma_int_range(0, listing.len() as int);
        let g = |i: int| listing[i]@;
        let listed = indices.map(g);
        lemma_map_size_bound(indices, listed, g);
        assert(variants.subset_of(listed)) by {
            assert forall|v: Seq<char>| variants.contains(v) implies listed.contains(v) by {
                let i = choose|i: int| range.contains(i) && f(i) == v;
                if i == 0 {
                    assert(taken.contains(name));
                } else {
                    assert(taken.contains(numbered(name, i as nat)));
                }
                let j = choose|j: int| 0 <= j < listing.len() && #[trigger] listing[j]@ == v;
                assert(indices.contains(j) && g(j) == v);
            }
        }
        lemma_len_subset(variants, listed);
        assert(false);
    }
}

/// The name that `name` receives in a directory that holds `listing`: the
/// name itself when it is free, else its first free numbered variant.
pub fn unique_name(listing: &Vec<String>, name: &String) -> (r: String)
    ensures
        is_free_choice(name_set(listing@), name@, r@),
{
    let ghost taken = name_set(listing@);
    let len = listing.len();
    proof { listing_leaves_a_free_name(listing@, name@); }
    if !is_listed(listing, name) {
        return name.clone();
    }
    let k = find_char(name, '.');
    let mut i: u64 = 1;
    loop
        invariant
            1 <= i,
            k as int == first_index(name@, '.'),
            k <= name@.len(),
            taken == name_set(listing@),
            taken.contains(name@),
            !no_free_variant(taken, name@),
            forall|j: nat| 1 <= j < i ==> taken.contains(#[trigger] numbered(name@, j)),
        decreases u64::MAX - i,
    {
        let cand = numbered_string(name, k, i);
        if !is_listed(listing, &cand) {
            assert(is_free_choice(taken, name@, cand@)) by {
                assert(cand@ == numbered(name@, i as nat));
            }
            return cand;
        }
        if i == u64::MAX {
            proof {
                assert forall|j: nat| 1 <= j <= u64::MAX implies taken.contains(#[trigger] numbered(name@, j)) by {
                    if j == u64::MAX {
                        assert(cand@ == numbered(name@, j));
                    }
                }
                assert(false);
            }
            return cand;
        }
        i = i + 1;
    }
}

/// The names that a batch receives in a directory that holds `listing`, in
/// the order of the batch.
pub fn unique_names(listing: &Vec<String>, names: &Vec<String>) -> (r: Vec<String>)
    ensures
        r@.len() == names@.len(),
        forall|k: int| 0 <= k < names@.len() ==> is_free_choice(name_set(listing@), #[trigger] names@[k]@, r@[k]@),
{
    let mut out: Vec<String> = Vec::new();
    let mut i: usize = 0;
    while i < names.len()
        invariant
            i <= names@.len(),
            out@.len() == i,
            forall|k: int| 0 <= k < i ==> is_free_choice(name_set(listing@), #[trigger] names@[k]@, out@[k]@),
        decreases names@.len() - i,
    {
        out.push(unique_name(listing, &names[i]));
        i = i + 1;
    }
    out
}

/// For every set of taken names and every batch, the names handed out avoid
/// the taken names, one for each requested name and in the batch's order.
pub proof fn unique_names_avoid_taken(taken: Set<Seq<char>>, names: Seq<Seq<char>>, out: Seq<Seq<char>>)
    requires
        out.len() == names.len(),
        forall|k: int| 0 <= k < names.len() ==> is_free_choice(taken, #[trigger] names[k], out[k]),
    ensures
        forall|k: int| 0 <= k < out.len() ==> !taken.contains(#[trigger] out[k]),
        out.len() == names.len(),
{
    assert forall|k: int| 0 <= k < out.len() implies !taken.contains(#[trigger] out[k]) by {
        assert(is_free_choice(taken, names[k], out[k]));
    }
}

/// The name that `name` receives beside the names in `taken`.
pub open spec fn free_choice(taken: Set<Seq<char>>, name: Seq<char>) -> Seq<char> {
    choose|out: Seq<char>| is_free_choice(taken, name, out)
}

proof fn lemma_free_choice_unique(taken: Set<Seq<char>>, name: Seq<char>, out: Seq<char>)
    requires
        is_free_choice(taken, name, out),
    ensures
        free_choice(taken, name) == out,
{
    let o2 = free_choice(taken, name);
    assert(is_free_choice(taken, name, o2));
    if taken.contains(name) {
        let i1 = choose|i: nat|
            1 <= i <= u64::MAX && out == numbered(name, i) && !taken.contains(out) && forall|j: nat|
                1 <= j < i ==> taken.contains(#[trigger] numbered(name, j));
        let i2 = choose|i: nat|
            1 <= i <= u64::MAX && o2 == numbered(name, i) && !taken.contains(o2) && forall|j: nat|
                1 <= j < i ==> taken.contains(#[trigger] numbered(name, j));
        if i1 < i2 {
            assert(taken.contains(numbered(name, i1)));
        } else if i2 < i1 {
            assert(taken.contains(numbered(name, i2)));
        }
    }
}

/// `name` placed inside the directory `dir`.
pub open spec fn join(dir: Seq<char>, name: Seq<char>) -> Seq<char> {
    if is_absolute(name) || dir.len() == 0 {
        name
    } else if dir.last() == '/' {
        dir + name
    } else {
        dir + seq!['/'] + name
    }
}

/// Places `name` inside the directory `dir`.
pub fn join_path(dir: &String, name: &String) -> (r: String)
    ensures
        r@ == join(dir@, name@),
{
    proof { reveal_strlit("/"); }
    let d = dir.as_str();
    let n = d.unicode_len();
    let m = name.as_str().unicode_len();
    if (m > 0 && name.as_str().get_char(0) == '/') || n == 0 {
        return name.clone();
    }
    let mut r = dir.clone();
    if d.get_char(n - 1) != '/' {
        r.append("/");
    }
    r.append(name.as_str());
    r
}

/// The URIs of the destinations that a batch of requested files receives
/// in the directory `dir`, which holds `listing`, in the order of the batch.
/// Each request is placed under its leaf name, or under the first free
/// numbered variant of it.
pub fn resolve_destinations(dir: &String, listing: &Vec<String>, files: &Vec<FilePath>) -> (r: Result<Vec<String>, SaveFilesError>)
    ensures
        r is Ok <==> forall|k: int|
            0 <= k < files@.len() ==> is_absolute(join(dir@, free_choice(name_set(listing@), #[trigger] leaf(files@[k].0@)))),
        is_absolute(dir@) ==> r is Ok,
        r is Err ==> r == Err::<Vec<String>, SaveFilesError>(SaveFilesError::UniqueNotValidUri),
        r matches Ok(uris) ==> uris@.len() == files@.len() && forall|k: int|
            0 <= k < files@.len() ==> (#[trigger] uris@[k])@ == file_url_text(join(dir@, free_choice(name_set(listing@), leaf(files@[k].0@)))),
{
    let ghost taken = name_set(listing@);
    let mut leaves: Vec<String> = Vec::new();
    let mut j: usize = 0;
    while j < files.len()
        invariant
            j <= files@.len(),
            leaves@.len() == j,
            forall|k: int| 0 <= k < j ==> (#[trigger] leaves@[k])@ == leaf(files@[k].0@),
        decreases files@.len() - j,
    {
        leaves.push(leaf_name(&files[j].0));
        j = j + 1;
    }
    let chosen = unique_names(listing, &leaves);
    assert forall|k: int| 0 <= k < files@.len() implies free_choice(taken, #[trigger] leaf(files@[k].0@)) == chosen@[k]@ by {
        assert(leaves@[k]@ == leaf(files@[k].0@));
        lemma_free_choice_unique(taken, leaves@[k]@, chosen@[k]@);
    }
    let mut uris: Vec<String> = Vec::new();
    let mut i: usize = 0;
    while i < chosen.len()
        invariant
            chosen@.len() == files@.len(),
            i <= chosen@.len(),
            uris@.len() == i,
            taken == name_set(listing@),
            forall|k: int| 0 <= k < files@.len() ==> free_choice(taken, #[trigger] leaf(files@[k].0@)) == chosen@[k]@,
            is_absolute(dir@) ==> forall|k: int| 0 <= k < i ==> is_absolute(join(dir@, #[trigger] chosen@[k]@)),
            forall|k: int| 0 <= k < i ==> (#[trigger] uris@[k])@ == file_url_text(join(dir@, chosen@[k]@)),
            forall|k: int| 0 <= k < i ==> is_absolute(join(dir@, #[trigger] chosen@[k]@)),
        decreases chosen@.len() - i,
    {
        let path = join_path(dir, &chosen[i]);
        assert(is_absolute(dir@) ==> is_absolute(path@));
        match file_url(&path) {
            Some(u) => uris.push(u),
            None => {
                assert(!is_absolute(join(dir@, free_choice(taken, leaf(files@[i as int].0@)))));
                return Err(SaveFilesError::UniqueNotValidUri);
            },
        }
        i = i + 1;
    }
    assert forall|k: int| 0 <= k < files@.len() implies (#[trigger] uris@[k])@ == file_url_text(
        join(dir@, free_choice(taken, leaf(files@[k].0@))),
    ) by {
        assert(free_choice(taken, leaf(files@[k].0@)) == chosen@[k]@);
    }
    assert(forall|k: int| 0 <= k < files@.len() ==> is_absolute(join(dir@, free_choice(taken, #[trigger] leaf(files@[k].0@))))) by {
        assert forall|k: int| 0 <= k < files@.len() implies is_absolute(join(dir@, free_choice(taken, #[trigger] leaf(files@[k].0@)))) by {
            assert(free_choice(taken, leaf(files@[k].0@)) == chosen@[k]@);
            assert(is_absolute(join(dir@, chosen@[k]@)));
        }
    }
    Ok(uris)
}

/// The local directory that a directory chooser's outcome designates.
pub fn selected_directory(uris: &Vec<String>) -> (r: Result<String, SaveFilesError>)
    ensures
        r == Err::<String, SaveFilesError>(SaveFilesError::NotExactlyOnePath) <==> uris@.len() != 1,
        r == Err::<String, SaveFilesError>(SaveFilesError::SelectedNotValidUri) <==> uris@.len() == 1 && !url_parses(uris@[0]@),
        r == Err::<String, SaveFilesError>(SaveFilesError::SelectedNotValidPath) <==> uris@.len() == 1 && url_parses(uris@[0]@)
            && uri_path_of(uris@[0]@) is None,
        r is Ok || r == Err::<String, SaveFilesError>(SaveFilesError::NotExactlyOnePath) || r == Err::<String, SaveFilesError>(SaveFilesError::SelectedNotValidUri) || r == Err::<String, SaveFilesError>(SaveFilesError::SelectedNotValidPath),
        r matches Ok(dir) ==> uri_path_of(uris@[0]@) == Some(dir@) && is_absolute(dir@),
{
    if uris.len() != 1 {
        return Err(SaveFilesError::NotExactlyOnePath);
    }
    match uri_file_path(&uris[0]) {
        Err(_) => Err(SaveFilesError::SelectedNotValidUri),
        Ok(None) => Err(SaveFilesError::SelectedNotValidPath),
        Ok(Some(p)) => Ok(p),
    }
}

} // verus!
