use vstd::prelude::*;

use crate::errors::ParamParseError;

verus! {

/// The type of a definition or a parameter, as parsed from a textual
/// signature such as `!X`, `vector<int>` or `storage.FileType`.
#[derive(Debug, PartialEq)]
pub struct Type {
    /// The namespace components of the type, outermost first.
    pub namespace: Vec<String>,

    /// The name of the type; never empty for a parsed signature.
    pub name: String,

    /// Whether this type is bare or boxed: true iff the first character of
    /// `name` is an ASCII lowercase letter.
    pub bare: bool,

    /// Whether the type name refers to a generic definition, written with a
    /// leading `!` in the signature.
    pub generic_ref: bool,

    /// If the type has a generic argument, which is its type.
    pub generic_arg: Option<Box<Type>>,
}

/// The mathematical model of a parsed signature: the same shape as [`Type`],
/// over sequences of characters.
#[verifier::ext_equal]
pub struct TypeModel {
    /// The namespace components, outermost first.
    pub namespace: Seq<Seq<char>>,
    /// The final identifier component.
    pub name: Seq<char>,
    /// Whether the type is bare.
    pub bare: bool,
    /// Whether the signature began with `!`.
    pub generic_ref: bool,
    /// The nested generic argument, if the signature had one.
    pub generic_arg: Option<Box<TypeModel>>,
}

impl View for Type {
    type V = TypeModel;

    open spec fn view(&self) -> TypeModel
        decreases self,
    {
        TypeModel {
            namespace: self.namespace.deep_view(),
            name: self.name@,
            bare: self.bare,
            generic_ref: self.generic_ref,
            generic_arg: match self.generic_arg {
                Some(arg) => Some(Box::new((*arg)@)),
                None => None,
            },
        }
    }
}

/// The index of the first occurrence of `c` in `s`, or -1 if `c` does not
/// occur in `s`.
pub open spec fn find_char(s: Seq<char>, c: char) -> int
    decreases s.len(),
{
    if s.len() == 0 {
        -1
    } else if s[0] == c {
        0
    } else if find_char(s.skip(1), c) == -1 {
        -1
    } else {
        find_char(s.skip(1), c) + 1
    }
}

/// The pieces of `s` between its dots, in order: one piece more than there
/// are dots, and a piece is empty where two dots are adjacent or a dot
/// stands at either end.
pub open spec fn split_dots(s: Seq<char>) -> Seq<Seq<char>>
    decreases s.len(),
{
    let pos = find_char(s, '.');
    if 0 <= pos && pos < s.len() {
        seq![s.subrange(0, pos)] + split_dots(s.subrange(pos + 1, s.len() as int))
    } else {
        seq![s]
    }
}

/// Every piece of a dotted path is non-empty.
pub open spec fn all_non_empty(parts: Seq<Seq<char>>) -> bool {
    forall|i: int| 0 <= i < parts.len() ==> #[trigger] parts[i].len() > 0
}

/// Whether `c` is an ASCII lowercase letter.
pub open spec fn is_ascii_lowercase_char(c: char) -> bool {
    'a' as u32 <= c as u32 && c as u32 <= 'z' as u32
}

/// Parse the dotted path `head`, attaching the already-determined flags and
/// generic argument: every piece must be non-empty, the last piece is the
/// name, the preceding pieces are the namespace, and bareness is decided by
/// the first character of the name alone.
pub open spec fn parse_head(
    head: Seq<char>,
    generic_ref: bool,
    generic_arg: Option<Box<TypeModel>>,
) -> Result<TypeModel, ParamParseError> {
    let parts = split_dots(head);
    if !all_non_empty(parts) {
        Err(ParamParseError::Empty)
    } else {
        Ok(
            TypeModel {
                namespace: parts.drop_last(),
                name: parts.last(),
                bare: is_ascii_lowercase_char(parts.last()[0]),
                generic_ref,
                generic_arg,
            },
        )
    }
}

/// Parse a full signature: strip a leading `!`, then split off a generic
/// argument at the first `<` (the string must then end with `>`, and the
/// argument body is parsed recursively), then parse the remaining head as a
/// dotted path.
pub open spec fn spec_parse(s: Seq<char>) -> Result<TypeModel, ParamParseError>
    decreases s.len(),
{
    let generic_ref = s.len() > 0 && s[0] == '!';
    let rest = if generic_ref {
        s.skip(1)
    } else {
        s
    };
    let pos = find_char(rest, '<');
    if 0 <= pos && pos < rest.len() {
        if pos + 2 <= rest.len() && rest[rest.len() - 1] == '>' {
            match spec_parse(rest.subrange(pos + 1, rest.len() - 1)) {
                Ok(arg) => parse_head(
                    rest.subrange(0, pos),
                    generic_ref,
                    Some(Box::new(arg)),
                ),
                Err(e) => Err(e),
            }
        } else {
            Err(ParamParseError::BadGeneric)
        }
    } else {
        parse_head(rest, generic_ref, None)
    }
}

/// Where `find_char` finds an occurrence it is a real one, it is the first,
/// and where it finds none there is none.
proof fn lemma_find_char(s: Seq<char>, c: char)
    ensures
        find_char(s, c) == -1 ==> forall|i: int| 0 <= i < s.len() ==> s[i] != c,
        find_char(s, c) != -1 ==> 0 <= find_char(s, c) < s.len() && s[find_char(s, c)] == c
            && forall|i: int| 0 <= i < find_char(s, c) ==> s[i] != c,
    decreases s.len(),
{
    if s.len() > 0 && s[0] != c {
        lemma_find_char(s.skip(1), c);
        assert forall|i: int| 1 <= i < s.len() implies s[i] == s.skip(1)[i - 1] by {}
    }
}

/// `find_char` returns the position of the first occurrence: pinning it from
/// an occurrence at `p` with none before it.
proof fn lemma_find_char_at(s: Seq<char>, c: char, p: int)
    requires
        0 <= p < s.len(),
        s[p] == c,
        forall|i: int| 0 <= i < p ==> s[i] != c,
    ensures
        find_char(s, c) == p,
    decreases s.len(),
{
    if p > 0 {
        assert forall|i: int| 0 <= i < p - 1 implies s.skip(1)[i] != c by {
            assert(s.skip(1)[i] == s[i + 1]);
        }
        assert(s.skip(1)[p - 1] == s[p]);
        lemma_find_char_at(s.skip(1), c, p - 1);
    }
}

/// `find_char` returns -1 when `c` occurs nowhere in `s`.
proof fn lemma_find_char_none(s: Seq<char>, c: char)
    requires
        forall|i: int| 0 <= i < s.len() ==> s[i] != c,
    ensures
        find_char(s, c) == -1,
    decreases s.len(),
{
    if s.len() > 0 {
        assert forall|i: int| 0 <= i < s.skip(1).len() implies s.skip(1)[i] != c by {
            assert(s.skip(1)[i] == s[i + 1]);
        }
        lemma_find_char_none(s.skip(1), c);
    }
}

/// The index of the first occurrence of `c` in `s`, scanning left to right.
fn find_char_str(s: &str, c: char) -> (r: Option<usize>)
    ensures
        match r {
            Some(i) => find_char(s@, c) == i as int && i < s@.len(),
            None => find_char(s@, c) == -1,
        },
{
    let n = s.unicode_len();
    let mut i: usize = 0;
    while i < n
        invariant
            n == s@.len(),
            0 <= i <= n,
            forall|j: int| 0 <= j < i ==> s@[j] != c,
        decreases n - i,
    {
        if s.get_char(i) == c {
            proof {
                lemma_find_char_at(s@, c, i as int);
            }
            return Some(i);
        }
        i += 1;
    }
    proof {
        lemma_find_char_none(s@, c);
    }
    None
}

/// Splitting a suffix of `s` whose first dot stands at `i` yields the piece
/// before that dot followed by the split of what comes after it.
proof fn lemma_split_dots_step(s: Seq<char>, start: int, i: int)
    requires
        0 <= start <= i < s.len(),
        s[i] == '.',
        forall|j: int| start <= j < i ==> s[j] != '.',
    ensures
        split_dots(s.subrange(start, s.len() as int)) == seq![s.subrange(start, i)]
            + split_dots(s.subrange(i + 1, s.len() as int)),
{
    let n = s.len() as int;
    let sub = s.subrange(start, n);
    assert forall|j: int| 0 <= j < i - start implies sub[j] != '.' by {
        assert(sub[j] == s[start + j]);
    }
    lemma_find_char_at(sub, '.', i - start);
    assert(sub.subrange(0, i - start) =~= s.subrange(start, i));
    assert(sub.subrange(i - start + 1, sub.len() as int) =~= s.subrange(i + 1, n));
}

/// Splitting a suffix of `s` that holds no dot yields that suffix as the one
/// piece.
proof fn lemma_split_dots_last(s: Seq<char>, start: int)
    requires
        0 <= start <= s.len(),
        forall|j: int| start <= j < s.len() ==> s[j] != '.',
    ensures
        split_dots(s.subrange(start, s.len() as int)) == seq![s.subrange(start, s.len() as int)],
{
    let n = s.len() as int;
    let sub = s.subrange(start, n);
    assert forall|j: int| 0 <= j < sub.len() implies sub[j] != '.' by {
        assert(sub[j] == s[start + j]);
    }
    lemma_find_char_none(sub, '.');
}

/// Split `s` on `.` into its pieces, in order, rejecting a path any of whose
/// pieces is empty.
fn split_on_dots(s: &str) -> (r: Result<Vec<String>, ParamParseError>)
    ensures
        match r {
            Ok(parts) => all_non_empty(split_dots(s@)) && parts.deep_view() == split_dots(s@)
                && parts.len() >= 1,
            Err(e) => e == ParamParseError::Empty && !all_non_empty(split_dots(s@)),
        },
{
    let n = s.unicode_len();
    let mut parts: Vec<String> = Vec::new();
    let mut start: usize = 0;
    let mut i: usize = 0;
    proof {
        assert(s@.subrange(0, n as int) =~= s@);
        assert(parts.deep_view() =~= Seq::<Seq<char>>::empty());
        assert(parts.deep_view() + split_dots(s@) =~= split_dots(s@));
    }
    while i < n
        invariant
            n == s@.len(),
            0 <= start <= i <= n,
            split_dots(s@) == parts.deep_view() + split_dots(
                s@.subrange(start as int, n as int),
            ),
            forall|j: int| start <= j < i ==> s@[j] != '.',
            forall|k: int|
                0 <= k < parts.deep_view().len() ==> #[trigger] parts.deep_view()[k].len() > 0,
        decreases n - i,
    {
        if s.get_char(i) == '.' {
            proof {
                lemma_split_dots_step(s@, start as int, i as int);
            }
            if i == start {
                proof {
                    assert(split_dots(s@)[parts.deep_view().len() as int] == s@.subrange(
                        start as int,
                        i as int,
                    ));
                    assert(s@.subrange(start as int, i as int).len() == 0);
                }
                return Err(ParamParseError::Empty);
            }
            let piece = String::from_str(s.substring_char(start, i));
            let ghost old_dv = parts.deep_view();
            parts.push(piece);
            proof {
                assert(parts.deep_view() =~= old_dv.push(s@.subrange(start as int, i as int)));
                assert(split_dots(s@) =~= parts.deep_view() + split_dots(
                    s@.subrange(i + 1 as int, n as int),
                ));
            }
            start = i + 1;
        }
        i += 1;
    }
    proof {
        lemma_split_dots_last(s@, start as int);
    }
    if start == n {
        proof {
            assert(split_dots(s@)[parts.deep_view().len() as int] == s@.subrange(
                start as int,
                n as int,
            ));
            assert(s@.subrange(start as int, n as int).len() == 0);
        }
        return Err(ParamParseError::Empty);
    }
    let piece = String::from_str(s.substring_char(start, n));
    let ghost old_dv = parts.deep_view();
    parts.push(piece);
    proof {
        assert(parts.deep_view() =~= old_dv.push(s@.subrange(start as int, n as int)));
        assert(parts.deep_view() =~= split_dots(s@));
        assert forall|k: int| 0 <= k < split_dots(s@).len() implies #[trigger] split_dots(
            s@,
        )[k].len() > 0 by {
            assert(split_dots(s@)[k] == parts.deep_view()[k]);
        }
    }
    Ok(parts)
}

/// Whether `c` is an ASCII lowercase letter.
fn is_ascii_lowercase_exec(c: char) -> (r: bool)
    ensures
        r == is_ascii_lowercase_char(c),
{
    let u = c as u32;
    'a' as u32 <= u && u <= 'z' as u32
}

/// A structurally valid parsed signature: the name is non-empty, no
/// namespace component is empty, bareness is decided by the first character
/// of the name, and the generic argument, when present, is itself valid.
pub open spec fn wf_model(m: TypeModel) -> bool
    decreases m,
{
    &&& m.name.len() > 0
    &&& forall|i: int| 0 <= i < m.namespace.len() ==> #[trigger] m.namespace[i].len() > 0
    &&& m.bare == is_ascii_lowercase_char(m.name[0])
    &&& match m.generic_arg {
        Some(arg) => wf_model(*arg),
        None => true,
    }
}

/// A successful head parse yields a valid model whenever the attached
/// generic argument is valid.
proof fn lemma_parse_head_wf(
    head: Seq<char>,
    generic_ref: bool,
    generic_arg: Option<Box<TypeModel>>,
)
    requires
        match generic_arg {
            Some(arg) => wf_model(*arg),
            None => true,
        },
    ensures
        parse_head(head, generic_ref, generic_arg) matches Ok(m) ==> wf_model(m),
{
    let parts = split_dots(head);
    if all_non_empty(parts) {
        let m = parse_head(head, generic_ref, generic_arg)->Ok_0;
        assert(parts.len() >= 1);
        assert(parts[parts.len() - 1].len() > 0);
        assert forall|i: int| 0 <= i < m.namespace.len() implies #[trigger] m.namespace[i].len()
            > 0 by {
            assert(parts.drop_last()[i] == parts[i]);
        }
    }
}

/// Every signature the parser accepts satisfies the structural invariants of
/// [`wf_model`].
pub proof fn lemma_parse_wf(s: Seq<char>)
    ensures
        spec_parse(s) matches Ok(m) ==> wf_model(m),
    decreases s.len(),
{
    let generic_ref = s.len() > 0 && s[0] == '!';
    let rest = if generic_ref {
        s.skip(1)
    } else {
        s
    };
    let pos = find_char(rest, '<');
    if 0 <= pos && pos < rest.len() {
        if pos + 2 <= rest.len() && rest[rest.len() - 1] == '>' {
            lemma_parse_wf(rest.subrange(pos + 1, rest.len() - 1));
            match spec_parse(rest.subrange(pos + 1, rest.len() - 1)) {
                Ok(arg) => {
                    lemma_parse_head_wf(rest.subrange(0, pos), generic_ref, Some(Box::new(arg)));
                },
                Err(_) => {},
            }
        }
    } else {
        lemma_parse_head_wf(rest, generic_ref, None);
    }
}

/// Parsing is deterministic: one input has at most one successful parse, so
/// parsing the same signature twice yields structurally equal results.
pub proof fn lemma_parse_deterministic(s: Seq<char>, m1: TypeModel, m2: TypeModel)
    requires
        spec_parse(s) == Ok::<TypeModel, ParamParseError>(m1),
        spec_parse(s) == Ok::<TypeModel, ParamParseError>(m2),
    ensures
        m1 == m2,
{
}

/// A non-empty signature holding none of `.`, `<`, `>`, `!` parses to a type
/// with no namespace, no generic argument and no generic-reference marker,
/// whose name is the whole signature and whose bareness is decided by the
/// signature's first character.
pub proof fn lemma_parse_plain(s: Seq<char>)
    requires
        s.len() > 0,
        forall|i: int|
            0 <= i < s.len() ==> s[i] != '.' && s[i] != '<' && s[i] != '>' && s[i] != '!',
    ensures
        spec_parse(s) == Ok::<TypeModel, ParamParseError>(
            TypeModel {
                namespace: Seq::empty(),
                name: s,
                bare: is_ascii_lowercase_char(s[0]),
                generic_ref: false,
                generic_arg: None,
            },
        ),
{
    lemma_find_char_none(s, '<');
    lemma_split_dots_last(s, 0);
    assert(s.subrange(0, s.len() as int) =~= s);
    assert(seq![s].drop_last() =~= Seq::<Seq<char>>::empty());
    assert(spec_parse(s)->Ok_0 =~= TypeModel {
        namespace: Seq::empty(),
        name: s,
        bare: is_ascii_lowercase_char(s[0]),
        generic_ref: false,
        generic_arg: None,
    });
}

/// A signature whose remainder after the optional leading `!` holds an
/// opening `<` but does not end with a closing `>` fails with `BadGeneric`.
pub proof fn lemma_parse_bad_generic(s: Seq<char>)
    requires
        ({
            let rest = if s.len() > 0 && s[0] == '!' {
                s.skip(1)
            } else {
                s
            };
            (exists|i: int| 0 <= i < rest.len() && rest[i] == '<') && (rest.len() == 0 || rest[
                rest.len() - 1
            ] != '>')
        }),
    ensures
        spec_parse(s) == Err::<TypeModel, ParamParseError>(ParamParseError::BadGeneric),
{
    let rest = if s.len() > 0 && s[0] == '!' {
        s.skip(1)
    } else {
        s
    };
    let w = choose|i: int| 0 <= i < rest.len() && rest[i] == '<';
    assert(rest[w] == '<');
    lemma_find_char(rest, '<');
    assert(find_char(rest, '<') != -1);
}

impl Type {
    /// Parses a single type signature `type<generic_arg>`.
    ///
    /// A leading `!` marks a generic reference and is stripped first; the
    /// part before the first `<`, if any, is the head and the part between
    /// that `<` and the trailing `>` is parsed recursively as the generic
    /// argument; the head is then split on `.` into the namespace and the
    /// name, all of which must be non-empty; and the type is bare iff the
    /// name starts with an ASCII lowercase letter.
    pub fn from_str(ty: &str) -> (r: Result<Type, ParamParseError>)
        ensures
            match r {
                Ok(t) => spec_parse(ty@) == Ok::<TypeModel, ParamParseError>(t@),
                Err(e) => spec_parse(ty@) == Err::<TypeModel, ParamParseError>(e),
            },
        decreases ty@.len(),
    {
        let n = ty.unicode_len();
        // Parse `!type`
        let (rest, generic_ref) = if n > 0 && ty.get_char(0) == '!' {
            (ty.substring_char(1, n), true)
        } else {
            (ty, false)
        };
        proof {
            if ty@.len() > 0 && ty@[0] == '!' {
                assert(rest@ =~= ty@.skip(1));
            }
        }
        let m = rest.unicode_len();

        // Parse `type<generic_arg>`
        let (head, generic_arg): (&str, Option<Box<Type>>) = match find_char_str(rest, '<') {
            Some(pos) => {
                proof {
                    lemma_find_char(rest@, '<');
                }
                if rest.get_char(m - 1) != '>' {
                    return Err(ParamParseError::BadGeneric);
                }
                let arg = match Type::from_str(rest.substring_char(pos + 1, m - 1)) {
                    Ok(t) => t,
                    Err(e) => {
                        return Err(e);
                    },
                };
                (rest.substring_char(0, pos), Some(Box::new(arg)))
            },
            None => (rest, None),
        };

        // Parse `ns1.ns2.name`
        let mut parts = match split_on_dots(head) {
            Ok(parts) => parts,
            Err(e) => {
                return Err(e);
            },
        };
        let ghost parts_dv = parts.deep_view();
        let name = parts.pop().unwrap();
        proof {
            assert(split_dots(head@)[split_dots(head@).len() - 1].len() > 0);
            assert(parts.deep_view() =~= parts_dv.drop_last());
        }
        let bare = is_ascii_lowercase_exec(name.as_str().get_char(0));

        let result = Type { namespace: parts, name, bare, generic_ref, generic_arg };
        proof {
            let model = spec_parse(ty@);
            assert(model is Ok);
            assert(result@ =~= model->Ok_0);
        }
        Ok(result)
    }
}

} // verus!
