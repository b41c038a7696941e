//! The environment of the shell: the bindings of variable names to values,
//! the assignments that `export` reads, and the references to variables that
//! arguments hold.

use crate::text::{
    chars_of, find, is_space, is_whitespace, lemma_find, occurs_at, position_of, spells,
};
use vstd::prelude::*;
use vstd::string::*;

verus! {

/// One variable with its value.
struct Binding {
    name: String,
    value: String,
}

/// The bindings of the shell's variables. Every name is bound at most once;
/// a binding is never removed.
pub struct Environment {
    entries: Vec<Binding>,
}

impl View for Environment {
    type V = Map<Seq<char>, Seq<char>>;

    /// The value of each bound name.
    closed spec fn view(&self) -> Map<Seq<char>, Seq<char>> {
        Map::new(
            |name: Seq<char>| self.names().contains(name),
            |name: Seq<char>| self.entries@[self.names().index_of(name)].value@,
        )
    }
}

impl Environment {
    /// The bound names, in the order in which they were first bound.
    pub closed spec fn names(&self) -> Seq<Seq<char>> {
        Seq::new(self.entries@.len(), |i: int| self.entries@[i].name@)
    }

    /// No name is bound twice.
    pub closed spec fn wf(&self) -> bool {
        self.names().no_duplicates()
    }

    /// An environment without bindings.
    pub fn new() -> (r: Environment)
        ensures
            r.wf(),
            r@ == Map::<Seq<char>, Seq<char>>::empty(),
            r.names() == Seq::<Seq<char>>::empty(),
    {
        let r = Environment { entries: Vec::new() };
        assert(r.names() =~= Seq::<Seq<char>>::empty());
        assert(r@ =~= Map::<Seq<char>, Seq<char>>::empty());
        r
    }

    /// The number of bindings.
    pub fn len(&self) -> (n: usize)
        requires
            self.wf(),
        ensures
            n == self@.dom().len(),
    {
        proof {
            self.lemma_names();
        }
        self.entries.len()
    }

    /// The names are those that the environment binds, each once.
    pub proof fn lemma_names(&self)
        requires
            self.wf(),
        ensures
            self.names().no_duplicates(),
            self.names().to_set() == self@.dom(),
            self.names().len() == self@.dom().len(),
            self@.dom().finite(),
    {
        assert(self@.dom() =~= self.names().to_set());
        self.names().unique_seq_to_set();
    }

    proof fn lemma_values(&self)
        requires
            self.wf(),
        ensures
            forall|i: int|
                0 <= i < self.names().len() ==> self@[#[trigger] self.names()[i]]
                    == self.entries@[i].value@,
    {
    }

    fn position(&self, name: &str) -> (r: Option<usize>)
        ensures
            match r {
                Some(i) => i < self.names().len() && self.names()[i as int] == name@,
                None => !self.names().contains(name@),
            },
    {
        let chars = chars_of(name);
        let mut i: usize = 0;
        while i < self.entries.len()
            invariant
                i <= self.entries.len(),
                chars@ == name@,
                forall|j: int| 0 <= j < i ==> self.names()[j] != name@,
            decreases self.entries.len() - i,
        {
            if spells(&chars, self.entries[i].name.as_str()) {
                return Some(i);
            }
            i += 1;
        }
        None
    }

    /// The value that `name` is bound to.
    pub fn get(&self, name: &str) -> (r: Option<&String>)
        requires
            self.wf(),
        ensures
            match r {
                Some(value) => self@.contains_key(name@) && value@ == self@[name@],
                None => !self@.contains_key(name@),
            },
    {
        proof {
            self.lemma_values();
        }
        match self.position(name) {
            Some(i) => Some(&self.entries[i].value),
            None => None,
        }
    }

    /// Binds `name` to `value`, in place of the value it was bound to, if
    /// any.
    pub fn insert(&mut self, name: String, value: String)
        requires
            old(self).wf(),
        ensures
            final(self).wf(),
            final(self)@ == old(self)@.insert(name@, value@),
            final(self).names() == bound(old(self).names(), name@),
    {
        proof {
            self.lemma_values();
        }
        let ghost before = *self;
        match self.position(name.as_str()) {
            Some(i) => {
                let ghost k = name@;
                let ghost v = value@;
                self.entries[i].value = value;
                proof {
                    assert(self.names() =~= before.names());
                    self.lemma_values();
                    assert forall|key: Seq<char>|
                        self@.contains_key(key) implies #[trigger] self@[key] == before@.insert(
                        k,
                        v,
                    )[key] by {
                        let j = self.names().index_of(key);
                        assert(before.names()[j] == key);
                    }
                    assert(self@ =~= before@.insert(k, v));
                }
            },
            None => {
                let ghost k = name@;
                let ghost v = value@;
                self.entries.push(Binding { name, value });
                proof {
                    assert(self.names() =~= before.names().push(k));
                    self.lemma_values();
                    assert(self@.dom() =~= before@.dom().insert(k)) by {
                        assert forall|key: Seq<char>|
                            self.names().contains(key) implies before.names().contains(key)
                            || key == k by {
                            let j = self.names().index_of(key);
                            if j < before.names().len() {
                                assert(before.names()[j] == key);
                            }
                        }
                        assert forall|key: Seq<char>|
                            before.names().contains(key) implies self.names().contains(key) by {
                            let j = before.names().index_of(key);
                            assert(self.names()[j] == key);
                        }
                        assert(self.names()[before.names().len() as int] == k);
                    }
                    assert forall|key: Seq<char>|
                        self@.contains_key(key) implies #[trigger] self@[key] == before@.insert(
                        k,
                        v,
                    )[key] by {
                        let j = self.names().index_of(key);
                        if j < before.names().len() {
                            assert(before.names()[j] == key);
                        }
                    }
                    assert(self@ =~= before@.insert(k, v));
                }
            },
        }
    }
}

/// `names` once `name` is bound: a new name comes last.
pub open spec fn bound(names: Seq<Seq<char>>, name: Seq<char>) -> Seq<Seq<char>> {
    if names.contains(name) {
        names
    } else {
        names.push(name)
    }
}

/// The line that shows one binding.
pub open spec fn binding_line(name: Seq<char>, value: Seq<char>) -> Seq<char> {
    name + seq!['='] + value
}

/// One line for each of `names`, in their order, with the value that `env`
/// binds the name to.
pub open spec fn listing(names: Seq<Seq<char>>, env: Map<Seq<char>, Seq<char>>) -> Seq<Seq<char>> {
    Seq::new(names.len(), |i: int| binding_line(names[i], env[names[i]]))
}

/// The name and the value of an assignment: what stands before and after the
/// first `=` of `arg`. A text without `=` is no assignment.
pub open spec fn assignment(arg: Seq<char>) -> Option<(Seq<char>, Seq<char>)> {
    let at = find(arg, seq!['='], 0);
    if at < 0 {
        None
    } else {
        Some((arg.subrange(0, at), arg.subrange(at + 1, arg.len() as int)))
    }
}

/// `env` after the assignments among `args` were made, from the first to the
/// last.
pub open spec fn exported(args: Seq<Seq<char>>, env: Map<Seq<char>, Seq<char>>) -> Map<
    Seq<char>,
    Seq<char>,
>
    decreases args.len(),
{
    if args.len() == 0 {
        env
    } else {
        let rest = exported(args.drop_last(), env);
        match assignment(args.last()) {
            Some((name, value)) => rest.insert(name, value),
            None => rest,
        }
    }
}

/// `names` after the assignments among `args` were made, from the first to
/// the last.
pub open spec fn exported_names(args: Seq<Seq<char>>, names: Seq<Seq<char>>) -> Seq<Seq<char>>
    decreases args.len(),
{
    if args.len() == 0 {
        names
    } else {
        let rest = exported_names(args.drop_last(), names);
        match assignment(args.last()) {
            Some((name, value)) => bound(rest, name),
            None => rest,
        }
    }
}

/// The end of a variable's name that starts at `i`: the first position at or
/// after `i` that holds whitespace or `$`, or the length of `s`.
pub open spec fn skip_name(s: Seq<char>, i: int) -> int
    decreases s.len() - i,
{
    if 0 <= i < s.len() && !is_space(s[i]) && s[i] != '$' {
        skip_name(s, i + 1)
    } else {
        i
    }
}

/// `arg` with its first reference to a variable replaced by the variable's
/// value, or the name of that variable where `env` does not bind it. The
/// reference starts at the first `$` and ends before the next whitespace
/// or `$`; later references stay as they are.
pub open spec fn resolve(arg: Seq<char>, env: Map<Seq<char>, Seq<char>>) -> Result<
    Seq<char>,
    Seq<char>,
> {
    let start = find(arg, seq!['$'], 0);
    if start < 0 {
        Ok(arg)
    } else {
        let end = skip_name(arg, start + 1);
        let name = arg.subrange(start + 1, end);
        if env.contains_key(name) {
            Ok(arg.subrange(0, start) + env[name] + arg.subrange(end, arg.len() as int))
        } else {
            Err(name)
        }
    }
}

/// What is said of a reference to a variable that is not bound.
pub open spec fn unknown_variable(name: Seq<char>) -> Seq<char> {
    "Unknown variable: "@ + name
}

/// The arguments that are left of `args` once each is resolved: those whose
/// variable is not bound are dropped, the others keep their order.
pub open spec fn resolved(args: Seq<Seq<char>>, env: Map<Seq<char>, Seq<char>>) -> Seq<Seq<char>>
    decreases args.len(),
{
    if args.len() == 0 {
        Seq::empty()
    } else {
        let rest = resolved(args.drop_last(), env);
        match resolve(args.last(), env) {
            Ok(arg) => rest.push(arg),
            Err(_) => rest,
        }
    }
}

/// One diagnostic for each of `args` that refers to a variable that is not
/// bound, in the order of the arguments.
pub open spec fn unresolved(args: Seq<Seq<char>>, env: Map<Seq<char>, Seq<char>>) -> Seq<
    Seq<char>,
>
    decreases args.len(),
{
    if args.len() == 0 {
        Seq::empty()
    } else {
        let rest = unresolved(args.drop_last(), env);
        match resolve(args.last(), env) {
            Ok(_) => rest,
            Err(name) => rest.push(unknown_variable(name)),
        }
    }
}

/// Where `skip_name` ends: inside the text, after characters of a name, and
/// on a character that ends one.
pub proof fn lemma_skip_name(s: Seq<char>, i: int)
    requires
        0 <= i <= s.len(),
    ensures
        i <= skip_name(s, i) <= s.len(),
        forall|j: int| i <= j < skip_name(s, i) ==> !is_space(#[trigger] s[j]) && s[j] != '$',
        skip_name(s, i) < s.len() ==> is_space(s[skip_name(s, i)]) || s[skip_name(s, i)] == '$',
    decreases s.len() - i,
{
    if i < s.len() && !is_space(s[i]) && s[i] != '$' {
        lemma_skip_name(s, i + 1);
    }
}

/// Where a text of one character stands, the text holds that character.
pub proof fn lemma_occurs_char(s: Seq<char>, c: char, j: int)
    ensures
        occurs_at(s, seq![c], j) <==> 0 <= j < s.len() && s[j] == c,
{
    if 0 <= j < s.len() {
        let found = s.subrange(j, j + 1);
        assert(found[0] == s[j]);
        if s[j] == c {
            assert(found =~= seq![c]);
        }
    }
}

/// The first position of the character `c` in `s`: where the text made of
/// `c` alone is found first.
pub proof fn lemma_find_char(s: Seq<char>, c: char)
    ensures
        find(s, seq![c], 0) == -1 <==> forall|j: int| 0 <= j < s.len() ==> s[j] != c,
        find(s, seq![c], 0) != -1 ==> 0 <= find(s, seq![c], 0) < s.len() && s[find(
            s,
            seq![c],
            0,
        )] == c,
        forall|j: int| 0 <= j < find(s, seq![c], 0) ==> s[j] != c,
{
    lemma_find(s, seq![c], 0);
    let at = find(s, seq![c], 0);
    lemma_occurs_char(s, c, at);
    assert forall|j: int| 0 <= j < s.len() && (at == -1 || j < at) implies s[j] != c by {
        lemma_occurs_char(s, c, j);
        assert(!occurs_at(s, seq![c], j));
    }
}

/// What an assignment is made of: its name holds no `=`, and the name, `=`
/// and the value make up the argument. An argument that is no assignment
/// holds no `=`.
pub proof fn lemma_assignment_parts(arg: Seq<char>)
    ensures
        match assignment(arg) {
            Some((name, value)) => arg == name + seq!['='] + value && forall|j: int|
                0 <= j < name.len() ==> name[j] != '=',
            None => forall|j: int| 0 <= j < arg.len() ==> arg[j] != '=',
        },
{
    lemma_find_char(arg, '=');
    let at = find(arg, seq!['='], 0);
    if at >= 0 {
        let name = arg.subrange(0, at);
        let value = arg.subrange(at + 1, arg.len() as int);
        assert(arg =~= name + seq!['='] + value);
        assert forall|j: int| 0 <= j < name.len() implies name[j] != '=' by {
            assert(name[j] == arg[j]);
        }
    }
}

/// A name without `=`, then `=`, then a value assign the value to the name.
pub proof fn lemma_assignment_of(name: Seq<char>, value: Seq<char>)
    requires
        forall|j: int| 0 <= j < name.len() ==> name[j] != '=',
    ensures
        assignment(name + seq!['='] + value) == Some((name, value)),
{
    let arg = name + seq!['='] + value;
    lemma_find_char(arg, '=');
    let at = find(arg, seq!['='], 0);
    assert(arg[name.len() as int] == '=');
    if at < name.len() {
        if at >= 0 {
            assert(arg[at] == name[at]);
        }
    }
    assert(at == name.len());
    assert(arg.subrange(0, at) =~= name);
    assert(arg.subrange(at + 1, arg.len() as int) =~= value);
}

/// `export` keeps the names in step with the bindings: if `names` are the
/// names that `env` binds, each once, they are so after the assignments.
/// No binding is lost.
pub proof fn lemma_exported_names(
    args: Seq<Seq<char>>,
    names: Seq<Seq<char>>,
    env: Map<Seq<char>, Seq<char>>,
)
    requires
        names.no_duplicates(),
        names.to_set() == env.dom(),
    ensures
        exported_names(args, names).no_duplicates(),
        exported_names(args, names).to_set() == exported(args, env).dom(),
        env.dom().subset_of(exported(args, env).dom()),
    decreases args.len(),
{
    if args.len() > 0 {
        lemma_exported_names(args.drop_last(), names, env);
        let before = exported_names(args.drop_last(), names);
        match assignment(args.last()) {
            Some((name, value)) => {
                lemma_bound_names(before, exported(args.drop_last(), env), name, value);
            },
            None => {},
        }
    }
}

/// Binding one name keeps the names in step with the bindings.
pub proof fn lemma_bound_names(
    names: Seq<Seq<char>>,
    env: Map<Seq<char>, Seq<char>>,
    name: Seq<char>,
    value: Seq<char>,
)
    requires
        names.no_duplicates(),
        names.to_set() == env.dom(),
    ensures
        bound(names, name).no_duplicates(),
        bound(names, name).to_set() == env.insert(name, value).dom(),
        bound(names, name).contains(name),
{
    let after = bound(names, name);
    if names.contains(name) {
        assert(names.to_set().contains(name));
        assert(after.to_set() =~= env.insert(name, value).dom());
    } else {
        assert(after[names.len() as int] == name);
        assert forall|key: Seq<char>| after.to_set().contains(key) <==> env.insert(
            name,
            value,
        ).dom().contains(key) by {
            if after.contains(key) {
                let j = choose|j: int| 0 <= j < after.len() && after[j] == key;
                if j < names.len() {
                    assert(names[j] == key);
                    assert(names.to_set().contains(key));
                }
            }
            if env.dom().contains(key) {
                assert(names.to_set().contains(key));
                let j = choose|j: int| 0 <= j < names.len() && names[j] == key;
                assert(after[j] == key);
            }
        }
        assert(after.to_set() =~= env.insert(name, value).dom());
    }
}

/// After `export NAME=value`, `env` shows the line `NAME=value`, and no
/// other line for `NAME`: the new value takes the place of the old one, and
/// a name that was bound before gets no second line.
pub proof fn theorem_export_shows_in_env(
    names: Seq<Seq<char>>,
    env: Map<Seq<char>, Seq<char>>,
    name: Seq<char>,
    value: Seq<char>,
)
    requires
        names.no_duplicates(),
        names.to_set() == env.dom(),
        forall|j: int| 0 <= j < name.len() ==> name[j] != '=',
    ensures
        ({
            let args = seq![name + seq!['='] + value];
            let shown = listing(exported_names(args, names), exported(args, env));
            &&& exported(args, env) == env.insert(name, value)
            &&& exported_names(args, names) == bound(names, name)
            &&& bound(names, name).no_duplicates()
            &&& shown.len() == if names.contains(name) {
                names.len()
            } else {
                names.len() + 1
            }
            &&& exists|k: int|
                0 <= k < shown.len() && bound(names, name)[k] == name && #[trigger] shown[k]
                    == binding_line(name, value)
            &&& forall|k: int|
                0 <= k < shown.len() && bound(names, name)[k] == name ==> #[trigger] shown[k]
                    == binding_line(name, value)
            &&& forall|k: int|
                0 <= k < shown.len() && bound(names, name)[k] != name ==> #[trigger] shown[k]
                    == binding_line(bound(names, name)[k], env[bound(names, name)[k]])
        }),
{
    let arg = name + seq!['='] + value;
    let args = seq![arg];
    lemma_assignment_of(name, value);
    assert(args.drop_last() =~= Seq::<Seq<char>>::empty());
    assert(args.last() == arg);
    assert(exported(args.drop_last(), env) == env);
    assert(exported_names(args.drop_last(), names) == names);
    lemma_bound_names(names, env, name, value);
    let after = bound(names, name);
    let shown = listing(after, env.insert(name, value));
    let k = choose|k: int| 0 <= k < after.len() && after[k] == name;
    assert(shown[k] == binding_line(name, value));
}

/// An argument without `$` stays as it is.
pub proof fn lemma_resolve_plain(arg: Seq<char>, env: Map<Seq<char>, Seq<char>>)
    requires
        forall|j: int| 0 <= j < arg.len() ==> arg[j] != '$',
    ensures
        resolve(arg, env) == Ok::<Seq<char>, Seq<char>>(arg),
{
    lemma_find_char(arg, '$');
}

/// A run of characters of a name that ends at the end of the text, at
/// whitespace or at `$` is where `skip_name` stops.
pub proof fn lemma_skip_name_run(s: Seq<char>, i: int, n: int)
    requires
        0 <= i,
        0 <= n,
        i + n <= s.len(),
        forall|j: int| i <= j < i + n ==> !is_space(s[j]) && s[j] != '$',
        i + n == s.len() || is_space(s[i + n]) || s[i + n] == '$',
    ensures
        skip_name(s, i) == i + n,
    decreases n,
{
    if n > 0 {
        lemma_skip_name_run(s, i + 1, n - 1);
    }
}

/// The first reference of an argument: where `before` holds no `$`, `name`
/// holds neither whitespace nor `$`, and `after` is empty or starts with
/// whitespace or `$`, the argument `before $name after` resolves to
/// `before value after` if `name` is bound to `value`, and is dropped for
/// `name` if `name` is not bound.
pub proof fn theorem_first_reference_is_resolved(
    before: Seq<char>,
    name: Seq<char>,
    after: Seq<char>,
    env: Map<Seq<char>, Seq<char>>,
)
    requires
        forall|j: int| 0 <= j < before.len() ==> before[j] != '$',
        forall|j: int| 0 <= j < name.len() ==> !is_space(name[j]) && name[j] != '$',
        after.len() == 0 || is_space(after[0]) || after[0] == '$',
    ensures
        resolve(before + seq!['$'] + name + after, env) == if env.contains_key(name) {
            Ok::<Seq<char>, Seq<char>>(before + env[name] + after)
        } else {
            Err::<Seq<char>, Seq<char>>(name)
        },
{
    let arg = before + seq!['$'] + name + after;
    let start = before.len() as int;
    lemma_find_char(arg, '$');
    assert(arg[start] == '$');
    let at = find(arg, seq!['$'], 0);
    if 0 <= at < start {
        assert(arg[at] == before[at]);
    }
    assert(at == start);
    assert forall|j: int| start + 1 <= j < start + 1 + name.len() implies !is_space(arg[j])
        && arg[j] != '$' by {
        assert(arg[j] == name[j - start - 1]);
    }
    if after.len() > 0 {
        assert(arg[start + 1 + name.len()] == after[0]);
    }
    lemma_skip_name_run(arg, start + 1, name.len() as int);
    let end = start + 1 + name.len();
    assert(arg.subrange(start + 1, end) =~= name);
    assert(arg.subrange(0, start) =~= before);
    assert(arg.subrange(end, arg.len() as int) =~= after);
}

/// The arguments resolved, and what is to be said of those that were dropped.
pub struct Resolution {
    pub args: Vec<String>,
    pub diagnostics: Vec<String>,
}

/// Binds `USER` to `user`, the name under which the shell runs.
pub fn init_environment(environ: &mut Environment, user: &str)
    requires
        old(environ).wf(),
    ensures
        final(environ).wf(),
        final(environ)@ == old(environ)@.insert("USER"@, user@),
        final(environ).names() == bound(old(environ).names(), "USER"@),
{
    environ.insert(String::from_str("USER"), String::from_str(user));
}

/// The lines that show the bindings of `environ`, each as `NAME=value`.
pub fn env(environ: &Environment) -> (lines: Vec<String>)
    requires
        environ.wf(),
    ensures
        lines.deep_view() == listing(environ.names(), environ@),
{
    proof {
        environ.lemma_values();
    }
    let mut lines: Vec<String> = Vec::new();
    let mut i: usize = 0;
    while i < environ.entries.len()
        invariant
            i <= environ.entries.len(),
            environ.entries.len() == environ.names().len(),
            lines.deep_view() == listing(environ.names(), environ@).take(i as int),
            forall|j: int|
                0 <= j < environ.names().len() ==> environ@[#[trigger] environ.names()[j]]
                    == environ.entries@[j].value@,
        decreases environ.entries.len() - i,
    {
        let mut line = String::from_str(environ.entries[i].name.as_str());
        line.append("=");
        line.append(environ.entries[i].value.as_str());
        proof {
            reveal_strlit("=");
            assert("="@ =~= seq!['=']);
            assert(environ.names()[i as int] == environ.entries@[i as int].name@);
        }
        let ghost before = lines.deep_view();
        lines.push(line);
        assert(lines.deep_view() =~= before.push(line@));
        assert(lines.deep_view() =~= listing(environ.names(), environ@).take(i + 1));
        i += 1;
    }
    assert(lines.deep_view() =~= listing(environ.names(), environ@));
    lines
}

/// The name and the value that `arg` assigns, if it is an assignment.
pub fn split_assignment(arg: &str) -> (r: Option<(String, String)>)
    ensures
        match r {
            Some((name, value)) => assignment(arg@) == Some((name@, value@)),
            None => assignment(arg@) is None,
        },
{
    let chars = chars_of(arg);
    let mark: Vec<char> = vec!['='];
    assert(mark@ =~= seq!['=']);
    let at = position_of(&chars, &mark, 0);
    if at == chars.len() {
        None
    } else {
        let name = String::from_str(arg.substring_char(0, at));
        let value = String::from_str(arg.substring_char(at + 1, chars.len()));
        Some((name, value))
    }
}

/// Makes the assignments among `args`, from the first to the last; an
/// argument without `=` is passed over.
pub fn parse_environment(args: &Vec<&str>, environ: &mut Environment)
    requires
        old(environ).wf(),
    ensures
        final(environ).wf(),
        final(environ)@ == exported(args.deep_view(), old(environ)@),
        final(environ).names() == exported_names(args.deep_view(), old(environ).names()),
{
    let mut i: usize = 0;
    while i < args.len()
        invariant
            i <= args.len(),
            environ.wf(),
            environ@ == exported(args.deep_view().take(i as int), old(environ)@),
            environ.names() == exported_names(
                args.deep_view().take(i as int),
                old(environ).names(),
            ),
        decreases args.len() - i,
    {
        proof {
            assert(args.deep_view().take(i + 1).drop_last() =~= args.deep_view().take(i as int));
            assert(args.deep_view().take(i + 1).last() == args[i as int]@);
        }
        match split_assignment(args[i]) {
            Some((name, value)) => {
                environ.insert(name, value);
            },
            None => {},
        }
        i += 1;
    }
    assert(args.deep_view().take(i as int) =~= args.deep_view());
}

fn after_name(chars: &Vec<char>, from: usize) -> (r: usize)
    requires
        from <= chars.len(),
    ensures
        r == skip_name(chars@, from as int),
        from <= r <= chars.len(),
{
    let mut i: usize = from;
    while i < chars.len() && !is_whitespace(chars[i]) && chars[i] != '$'
        invariant
            from <= i <= chars.len(),
            skip_name(chars@, from as int) == skip_name(chars@, i as int),
        decreases chars.len() - i,
    {
        i += 1;
    }
    i
}

/// The end of the reference to a variable whose `$` stands at `start`: the
/// position of the next whitespace or `$`, or the length of `arg`.
pub fn parse_variable(arg: &str, start: usize) -> (end: usize)
    ensures
        start < arg@.len() ==> end == skip_name(arg@, start + 1),
        start >= arg@.len() ==> end == arg@.len(),
{
    let chars = chars_of(arg);
    if start < chars.len() {
        after_name(&chars, start + 1)
    } else {
        chars.len()
    }
}

/// `arg` with its first reference to a variable replaced by the value that
/// `environ` binds the variable to, or the variable's name where it is not
/// bound.
pub fn resolve_variable(arg: &str, environ: &Environment) -> (r: Result<String, String>)
    requires
        environ.wf(),
    ensures
        match r {
            Ok(text) => resolve(arg@, environ@) == Ok::<Seq<char>, Seq<char>>(text@),
            Err(name) => resolve(arg@, environ@) == Err::<Seq<char>, Seq<char>>(name@),
        },
{
    let chars = chars_of(arg);
    let mark: Vec<char> = vec!['$'];
    assert(mark@ =~= seq!['$']);
    let start = position_of(&chars, &mark, 0);
    if start == chars.len() {
        return Ok(String::from_str(arg));
    }
    let end = after_name(&chars, start + 1);
    let name = arg.substring_char(start + 1, end);
    match environ.get(name) {
        Some(value) => {
            let mut text = String::from_str(arg.substring_char(0, start));
            text.append(value.as_str());
            text.append(arg.substring_char(end, chars.len()));
            Ok(text)
        },
        None => Err(String::from_str(name)),
    }
}

/// Resolves each of `args`. An argument without `$` stays as it is; one
/// whose variable is not bound is dropped, with a diagnostic.
pub fn resolve_variables(args: &Vec<&str>, environ: &Environment) -> (r: Resolution)
    requires
        environ.wf(),
    ensures
        r.args.deep_view() == resolved(args.deep_view(), environ@),
        r.diagnostics.deep_view() == unresolved(args.deep_view(), environ@),
{
    let mut evaluated: Vec<String> = Vec::new();
    let mut diagnostics: Vec<String> = Vec::new();
    let mut i: usize = 0;
    while i < args.len()
        invariant
            i <= args.len(),
            environ.wf(),
            evaluated.deep_view() == resolved(args.deep_view().take(i as int), environ@),
            diagnostics.deep_view() == unresolved(args.deep_view().take(i as int), environ@),
        decreases args.len() - i,
    {
        proof {
            assert(args.deep_view().take(i + 1).drop_last() =~= args.deep_view().take(i as int));
            assert(args.deep_view().take(i + 1).last() == args[i as int]@);
        }
        match resolve_variable(args[i], environ) {
            Ok(text) => {
                let ghost before = evaluated.deep_view();
                evaluated.push(text);
                assert(evaluated.deep_view() =~= before.push(text@));
            },
            Err(name) => {
                let mut message = String::from_str("Unknown variable: ");
                message.append(name.as_str());
                let ghost before = diagnostics.deep_view();
                diagnostics.push(message);
                assert(diagnostics.deep_view() =~= before.push(message@));
            },
        }
        i += 1;
    }
    assert(args.deep_view().take(i as int) =~= args.deep_view());
    Resolution { args: evaluated, diagnostics }
}

} // verus!
