//! A simpler argument model for script tokens: arguments classified into positional
//! arguments and flags (`--name` or `-n`, with the dashes removed), each tracked for
//! consumption by the tokens of a script.

use vstd::prelude::*;
use crate::parameters::{
    copy_opt_string, find_key, named_view, opt_view, positional_view, sorted_insert, starts_dash,
    starts_with_dash, strs_view, unconsumed_named, unconsumed_positional, CliArgument, CliStateView,
    NamedArgument, NamedView,
};
use crate::text::{chars_of, lemma_str_lt_total, lemma_str_lt_transitive, owned, str_lt, string_of};

verus! {

/// Classified command-line arguments and their consumption state.
#[derive(Debug)]
pub struct ParsedArgs {
    positional: Vec<CliArgument>,
    named: Vec<NamedArgument>,
}

impl View for ParsedArgs {
    type V = CliStateView;

    closed spec fn view(&self) -> CliStateView {
        CliStateView { positional: positional_view(self.positional@), named: named_view(self.named@) }
    }
}

/// The name of a flag: without its leading `--`, or else without its leading `-`.
pub open spec fn flag_name(p: Seq<char>) -> Seq<char> {
    if crate::text::starts_with(p, "--"@) {
        p.subrange(2, p.len() as int)
    } else {
        p.subrange(1, p.len() as int)
    }
}

/// The arguments `params[i..]` classified over `st`: an argument starting with `-`
/// is a flag, which takes the next argument as its value unless that one starts
/// with `-`; any other argument is positional.
pub open spec fn args_parse(params: Seq<Seq<char>>, i: int, st: CliStateView) -> CliStateView
    decreases params.len() - i,
{
    if i < 0 || i >= params.len() {
        st
    } else {
        let p = params[i];
        let has_value = i + 1 < params.len() && !starts_dash(params[i + 1]);
        if starts_dash(p) {
            let nv = NamedView {
                key: flag_name(p),
                flag: p,
                value: if has_value {
                    Some(params[i + 1])
                } else {
                    None
                },
                consumed: false,
            };
            args_parse(
                params,
                if has_value {
                    i + 2
                } else {
                    i + 1
                },
                CliStateView { named: sorted_insert(st.named, nv), ..st },
            )
        } else {
            args_parse(params, i + 1, CliStateView { positional: st.positional.push((p, false)), ..st })
        }
    }
}

/// The classified arguments, before any consumption.
pub open spec fn parsed_args_of(params: Seq<Seq<char>>) -> CliStateView {
    args_parse(params, 0, CliStateView { positional: Seq::empty(), named: Seq::empty() })
}

/// The unconsumed flags as `--name` followed by their value, if any.
pub open spec fn remaining_named(n: Seq<NamedView>) -> Seq<Seq<char>>
    decreases n.len(),
{
    if n.len() == 0 {
        Seq::empty()
    } else {
        remaining_named(n.drop_last()) + if !n.last().consumed {
            seq!["--"@ + n.last().key] + match n.last().value {
                Some(v) => seq![v],
                None => Seq::empty(),
            }
        } else {
            Seq::empty()
        }
    }
}

/// Parts joined by single spaces.
pub open spec fn join_spaces(parts: Seq<Seq<char>>) -> Seq<char>
    decreases parts.len(),
{
    if parts.len() == 0 {
        Seq::empty()
    } else if parts.len() == 1 {
        parts[0]
    } else {
        join_spaces(parts.drop_last()) + " "@ + parts.last()
    }
}

/// Every argument marked as consumed.
pub open spec fn all_marked(st: CliStateView) -> CliStateView {
    CliStateView {
        positional: st.positional.map_values(|p: (Seq<char>, bool)| (p.0, true)),
        named: st.named.map_values(|n: NamedView| NamedView { consumed: true, ..n }),
    }
}

/// Whether the flags are in strictly ascending order of names.
pub open spec fn keys_sorted(n: Seq<NamedView>) -> bool {
    forall|i: int, j: int| #![trigger n[i], n[j]] 0 <= i < j < n.len() ==> str_lt(n[i].key, n[j].key)
}

/// Whether every argument is marked as consumed.
pub open spec fn every_consumed(st: CliStateView) -> bool {
    &&& forall|i: int| 0 <= i < st.positional.len() ==> (#[trigger] st.positional[i]).1
    &&& forall|i: int| 0 <= i < st.named.len() ==> (#[trigger] st.named[i]).consumed
}

/// Whether no argument is marked as consumed.
pub open spec fn none_consumed(st: CliStateView) -> bool {
    &&& forall|i: int| 0 <= i < st.positional.len() ==> !(#[trigger] st.positional[i]).1
    &&& forall|i: int| 0 <= i < st.named.len() ==> !(#[trigger] st.named[i]).consumed
}

/// Recording a flag keeps the flags in order, yields at least one flag, and
/// brings in no key and no consumed flag beyond those of `named` and `nv`.
proof fn lemma_sorted_insert(named: Seq<NamedView>, nv: NamedView, b: Seq<char>)
    requires
        keys_sorted(named),
    ensures
        keys_sorted(sorted_insert(named, nv)),
        sorted_insert(named, nv).len() >= 1,
        sorted_insert(named, nv).len() >= named.len(),
        ((forall|m: int| 0 <= m < named.len() ==> str_lt(b, (#[trigger] named[m]).key)) && str_lt(b, nv.key))
            ==> forall|k: int|
            0 <= k < sorted_insert(named, nv).len() ==> str_lt(b, (#[trigger] sorted_insert(named, nv)[k]).key),
        ((forall|m: int| 0 <= m < named.len() ==> !(#[trigger] named[m]).consumed) && !nv.consumed)
            ==> forall|k: int| 0 <= k < sorted_insert(named, nv).len() ==> !(#[trigger] sorted_insert(named, nv)[k]).consumed,
    decreases named.len(),
{
    let r = sorted_insert(named, nv);
    if named.len() == 0 {
    } else if named[0].key == nv.key {
        assert forall|i: int, j: int| 0 <= i < j < r.len() implies str_lt(r[i].key, r[j].key) by {
            assert(r[i].key == named[i].key && r[j].key == named[j].key);
        }
    } else if str_lt(nv.key, named[0].key) {
        assert forall|i: int, j: int| 0 <= i < j < r.len() implies str_lt(r[i].key, r[j].key) by {
            if i == 0 {
                if j > 1 {
                    assert(named[0] == r[1] && named[j - 1] == r[j]);
                    lemma_str_lt_transitive(nv.key, named[0].key, named[j - 1].key);
                }
            } else {
                assert(named[i - 1] == r[i] && named[j - 1] == r[j]);
            }
        }
        assert forall|k: int| 0 < k < r.len() implies r[k] == named[k - 1] by {}
    } else {
        let rest = named.drop_first();
        lemma_str_lt_total(nv.key, named[0].key);
        assert forall|i: int, j: int| 0 <= i < j < rest.len() implies str_lt(rest[i].key, rest[j].key) by {
            assert(rest[i] == named[i + 1] && rest[j] == named[j + 1]);
        }
        assert forall|m: int| 0 <= m < rest.len() implies str_lt(named[0].key, (#[trigger] rest[m]).key) by {
            assert(rest[m] == named[m + 1]);
        }
        lemma_sorted_insert(rest, nv, named[0].key);
        lemma_sorted_insert(rest, nv, b);
        let tail = sorted_insert(rest, nv);
        assert(r == seq![named[0]] + tail);
        assert forall|i: int, j: int| 0 <= i < j < r.len() implies str_lt(r[i].key, r[j].key) by {
            if i == 0 {
                assert(r[j] == tail[j - 1]);
            } else {
                assert(r[i] == tail[i - 1] && r[j] == tail[j - 1]);
            }
        }
        assert forall|k: int| 0 < k < r.len() implies r[k] == tail[k - 1] by {}
        if (forall|m: int| 0 <= m < named.len() ==> str_lt(b, (#[trigger] named[m]).key)) && str_lt(b, nv.key) {
            assert forall|m: int| 0 <= m < rest.len() implies str_lt(b, (#[trigger] rest[m]).key) by {
                assert(rest[m] == named[m + 1]);
            }
        }
        if (forall|m: int| 0 <= m < named.len() ==> !(#[trigger] named[m]).consumed) && !nv.consumed {
            assert forall|m: int| 0 <= m < rest.len() implies !(#[trigger] rest[m]).consumed by {
                assert(rest[m] == named[m + 1]);
            }
        }
    }
}

/// Classifying arguments over a fresh state keeps the flags in order and marks
/// nothing as consumed; it records something as soon as an argument is left.
proof fn lemma_parse_fresh(params: Seq<Seq<char>>, i: int, st: CliStateView)
    requires
        0 <= i,
        keys_sorted(st.named),
        none_consumed(st),
    ensures
        keys_sorted(args_parse(params, i, st).named),
        none_consumed(args_parse(params, i, st)),
        args_parse(params, i, st).positional.len() >= st.positional.len(),
        args_parse(params, i, st).named.len() >= st.named.len(),
        i < params.len() ==> args_parse(params, i, st).positional.len() + args_parse(params, i, st).named.len() > 0,
    decreases params.len() - i,
{
    if i < params.len() {
        let p = params[i];
        let has_value = i + 1 < params.len() && !starts_dash(params[i + 1]);
        if starts_dash(p) {
            let nv = NamedView {
                key: flag_name(p),
                flag: p,
                value: if has_value {
                    Some(params[i + 1])
                } else {
                    None
                },
                consumed: false,
            };
            lemma_sorted_insert(st.named, nv, Seq::empty());
            let st2 = CliStateView { named: sorted_insert(st.named, nv), ..st };
            lemma_parse_fresh(
                params,
                if has_value {
                    i + 2
                } else {
                    i + 1
                },
                st2,
            );
        } else {
            let st2 = CliStateView { positional: st.positional.push((p, false)), ..st };
            assert forall|k: int| 0 <= k < st2.positional.len() implies !(#[trigger] st2.positional[k]).1 by {
                if k < st.positional.len() {
                    assert(st2.positional[k] == st.positional[k]);
                }
            }
            lemma_parse_fresh(params, i + 1, st2);
        }
    }
}

/// Right after classification, every argument counts as consumed exactly when
/// no argument was given: on a fresh [`ParsedArgs::new`],
/// [`ParsedArgs::all_consumed`] holds exactly for an empty argument list.
pub proof fn lemma_fresh_args_consumed_iff_empty(params: Seq<Seq<char>>)
    ensures
        every_consumed(parsed_args_of(params)) <==> params.len() == 0,
{
    let st0 = CliStateView { positional: Seq::empty(), named: Seq::empty() };
    lemma_parse_fresh(params, 0, st0);
    let r = parsed_args_of(params);
    if params.len() > 0 {
        if r.positional.len() > 0 {
            assert(!r.positional[0].1);
        } else {
            assert(!r.named[0].consumed);
        }
    }
}

/// Flags with the same keys, in the same places, are in the same order.
proof fn lemma_same_keys_sorted(a: Seq<NamedView>, b: Seq<NamedView>)
    requires
        keys_sorted(a),
        a.len() == b.len(),
        forall|k: int| 0 <= k < a.len() ==> (#[trigger] a[k]).key == b[k].key,
    ensures
        keys_sorted(b),
{
    assert forall|i: int, j: int| 0 <= i < j < b.len() implies str_lt(b[i].key, b[j].key) by {
        assert(a[i].key == b[i].key && a[j].key == b[j].key);
    }
}

impl ParsedArgs {
    /// The flags are kept in strictly ascending order of names.
    #[verifier::type_invariant]
    spec fn flags_in_order(self) -> bool {
        keys_sorted(named_view(self.named@))
    }
}

impl ParsedArgs {
    /// Classifies the raw arguments into positional arguments and flags.
    pub fn new(cli_params: &[String]) -> (r: ParsedArgs)
        ensures
            r@ == parsed_args_of(strs_view(cli_params@)),
    {
        let ghost params = strs_view(cli_params@);
        let mut st = ParsedArgs { positional: Vec::new(), named: Vec::new() };
        let n = cli_params.len();
        let mut i: usize = 0;
        assert(st@.positional =~= Seq::<(Seq<char>, bool)>::empty());
        assert(st@.named =~= Seq::<NamedView>::empty());
        proof {
            reveal_strlit("--");
        }
        while i < n
            invariant
                i <= n,
                n == cli_params@.len(),
                params == strs_view(cli_params@),
                parsed_args_of(params) == args_parse(params, i as int, st@),
            decreases n - i,
        {
            let p = &cli_params[i];
            assert(params[i as int] == p@);
            let has_value = i + 1 < n && !starts_with_dash(cli_params[i + 1].as_str());
            if has_value {
                assert(params[i + 1] == cli_params@[i + 1]@);
            }
            if starts_with_dash(p.as_str()) {
                let pv = chars_of(p.as_str());
                proof {
                    reveal_strlit("--");
                }
                let key = if pv.len() >= 2 && pv[0] == '-' && pv[1] == '-' {
                    assert(pv@.subrange(0, 2) =~= "--"@);
                    string_of(&pv, 2, pv.len())
                } else {
                    proof {
                        if pv@.len() >= 2 {
                            assert(pv@.subrange(0, 2)[1] == pv@[1]);
                        }
                    }
                    string_of(&pv, 1, pv.len())
                };
                let value = if has_value {
                    Some(cli_params[i + 1].clone())
                } else {
                    None
                };
                let nv = NamedArgument { key, flag: p.clone(), value, consumed: false };
                let ghost before = st@;
                st.insert_named(nv);
                assert(key@ == flag_name(p@));
                assert(args_parse(params, i as int, before) == args_parse(
                    params,
                    if has_value {
                        i + 2
                    } else {
                        i + 1
                    },
                    CliStateView { named: sorted_insert(before.named, nv@), ..before },
                ));
                i = if has_value {
                    i + 2
                } else {
                    i + 1
                };
            } else {
                let ghost before = st@;
                proof {
                    use_type_invariant(&st);
                }
                let mut positional: Vec<CliArgument> = Vec::new();
                std::mem::swap(&mut positional, &mut st.positional);
                positional.push(CliArgument { value: p.clone(), consumed: false });
                st.positional = positional;
                assert(st@.positional =~= before.positional.push((p@, false)));
                assert(st@.named == before.named);
                i = i + 1;
            }
        }
        proof {
            use_type_invariant(&st);
        }
        st
    }

    /// Records a flag in place of the flag with the same key, or at its place in
    /// the ascending order of keys.
    fn insert_named(&mut self, nv: NamedArgument)
        ensures
            final(self)@ == (CliStateView {
                named: sorted_insert(old(self)@.named, nv@),
                ..old(self)@
            }),
    {
        proof {
            use_type_invariant(&*self);
            lemma_sorted_insert(named_view(self.named@), nv@, Seq::empty());
        }
        let mut named: Vec<NamedArgument> = Vec::new();
        std::mem::swap(&mut named, &mut self.named);
        crate::parameters::insert_sorted(&mut named, nv);
        self.named = named;
    }

    /// The positional argument at `index`, marked as consumed; empty when there is
    /// no such argument.
    pub fn get_positional(&mut self, index: usize) -> (r: String)
        ensures
            index < old(self)@.positional.len() ==> r@ == old(self)@.positional[index as int].0
                && final(self)@ == (CliStateView {
                positional: old(self)@.positional.update(
                    index as int,
                    (old(self)@.positional[index as int].0, true),
                ),
                ..old(self)@
            }),
            index >= old(self)@.positional.len() ==> r@ == Seq::<char>::empty() && final(self)@
                == old(self)@,
            keys_sorted(final(self)@.named),
    {
        proof {
            use_type_invariant(&*self);
        }
        if index < self.positional.len() {
            let v = self.positional[index].value.clone();
            let ghost before = self@;
            proof {
                use_type_invariant(&*self);
            }
            self.positional[index] = CliArgument { value: v.clone(), consumed: true };
            assert(self@.positional =~= before.positional.update(
                index as int,
                (before.positional[index as int].0, true),
            ));
            v
        } else {
            String::new()
        }
    }

    /// `value_if_present` when the flag `name` was given (the flag is then marked as
    /// consumed); empty otherwise.
    pub fn get_mapped_flag(&mut self, name: &str, value_if_present: &str) -> (r: String)
        ensures
            match find_key(old(self)@.named, name@) {
                Some(j) => r@ == value_if_present@ && final(self)@ == (CliStateView {
                    named: old(self)@.named.update(
                        j,
                        NamedView { consumed: true, ..old(self)@.named[j] },
                    ),
                    ..old(self)@
                }),
                None => r@ == Seq::<char>::empty() && final(self)@ == old(self)@,
            },
            keys_sorted(final(self)@.named),
    {
        match self.mark_named(name) {
            Some(_) => owned(value_if_present),
            None => String::new(),
        }
    }

    /// Marks the flag `name` as consumed and returns its value, if it was given.
    fn mark_named(&mut self, name: &str) -> (r: Option<Option<String>>)
        ensures
            match find_key(old(self)@.named, name@) {
                Some(j) => r is Some && opt_view(r->Some_0) == old(self)@.named[j].value
                    && final(self)@ == (CliStateView {
                    named: old(self)@.named.update(
                        j,
                        NamedView { consumed: true, ..old(self)@.named[j] },
                    ),
                    ..old(self)@
                }),
                None => r is None && final(self)@ == old(self)@,
            },
            keys_sorted(final(self)@.named),
    {
        proof {
            use_type_invariant(&*self);
        }
        let found = find_in(&self.named, name);
        match found {
            Some(j) => {
                assert(self@.named[j as int] == self.named@[j as int]@);
                let value = copy_opt_string(&self.named[j].value);
                let arg = NamedArgument {
                    key: self.named[j].key.clone(),
                    flag: self.named[j].flag.clone(),
                    value: copy_opt_string(&self.named[j].value),
                    consumed: true,
                };
                let ghost before = self@;
                proof {
                    use_type_invariant(&*self);
                    let after = named_view(self.named@.update(j as int, arg));
                    assert(after =~= before.named.update(j as int, arg@));
                    lemma_same_keys_sorted(before.named, after);
                }
                let mut named: Vec<NamedArgument> = Vec::new();
                std::mem::swap(&mut named, &mut self.named);
                named.set(j, arg);
                self.named = named;
                assert(self@.named =~= before.named.update(
                    j as int,
                    NamedView { consumed: true, ..before.named[j as int] },
                ));
                proof {
                    use_type_invariant(&*self);
                }
                Some(value)
            },
            None => None,
        }
    }

    /// The flag `name` as `--name value` or `--name`, marked as consumed; empty
    /// when it was not given.
    pub fn consume_named_passthrough(&mut self, name: &str) -> (r: String)
        ensures
            match find_key(old(self)@.named, name@) {
                Some(j) => r@ == (match old(self)@.named[j].value {
                    Some(v) => "--"@ + name@ + " "@ + v,
                    None => "--"@ + name@,
                }) && final(self)@ == (CliStateView {
                    named: old(self)@.named.update(
                        j,
                        NamedView { consumed: true, ..old(self)@.named[j] },
                    ),
                    ..old(self)@
                }),
                None => r@ == Seq::<char>::empty() && final(self)@ == old(self)@,
            },
            keys_sorted(final(self)@.named),
    {
        match self.mark_named(name) {
            Some(value) => {
                let mut out = owned("--");
                out.append(name);
                match value {
                    Some(v) => {
                        out.append(" ");
                        out.append(v.as_str());
                    },
                    None => {},
                }
                out
            },
            None => String::new(),
        }
    }

    /// Every unconsumed argument, positional ones first and then each flag as
    /// `--name` followed by its value in ascending order of names (the order in
    /// which the flags are kept), joined by spaces; all of them are marked as
    /// consumed.
    pub fn consume_remaining(&mut self) -> (r: String)
        ensures
            r@ == join_spaces(
                unconsumed_positional(old(self)@.positional) + remaining_named(old(self)@.named),
            ),
            keys_sorted(old(self)@.named),
            final(self)@ == all_marked(old(self)@),
            keys_sorted(final(self)@.named),
    {
        proof {
            use_type_invariant(&*self);
        }
        let ghost st = self@;
        let mut parts: Vec<String> = Vec::new();
        let mut i: usize = 0;
        assert(strs_view(parts@) =~= Seq::<Seq<char>>::empty());
        assert(st.positional.subrange(0, 0) =~= Seq::<(Seq<char>, bool)>::empty());
        while i < self.positional.len()
            invariant
                i <= self.positional@.len(),
                self.positional@.len() == st.positional.len(),
                self@.named == st.named,
                forall|k: int|
                    0 <= k < st.positional.len() ==> (#[trigger] self@.positional[k]).0
                        == st.positional[k].0,
                forall|k: int| 0 <= k < i ==> (#[trigger] self@.positional[k]).1,
                forall|k: int| i <= k < st.positional.len() ==> (#[trigger] self@.positional[k]) == st.positional[k],
                strs_view(parts@) == unconsumed_positional(st.positional.subrange(0, i as int)),
            decreases self.positional@.len() - i,
        {
            assert(st.positional.subrange(0, i + 1).drop_last() =~= st.positional.subrange(
                0,
                i as int,
            ));
            assert(self@.positional[i as int] == (self.positional@[i as int].value@,
                self.positional@[i as int].consumed));
            if !self.positional[i].consumed {
                let ghost before = strs_view(parts@);
                let v = self.positional[i].value.clone();
                parts.push(v.clone());
                assert(strs_view(parts@) =~= before + seq![st.positional[i as int].0]);
                let ghost sb = self@;
                proof {
                    use_type_invariant(&*self);
                }
                self.positional[i] = CliArgument { value: v, consumed: true };
                assert(self@.positional =~= sb.positional.update(i as int, (sb.positional[i as int].0, true)));
            } else {
                assert(unconsumed_positional(st.positional.subrange(0, i + 1)) =~= unconsumed_positional(
                    st.positional.subrange(0, i as int),
                ));
            }
            i = i + 1;
        }
        assert(st.positional.subrange(0, i as int) =~= st.positional);
        let ghost pos_part = strs_view(parts@);
        let mut j: usize = 0;
        assert(st.named.subrange(0, 0) =~= Seq::<NamedView>::empty());
        assert(pos_part + remaining_named(st.named.subrange(0, 0)) =~= pos_part);
        while j < self.named.len()
            invariant
                j <= self.named@.len(),
                self.named@.len() == st.named.len(),
                self@.positional == all_marked(st).positional,
                forall|k: int|
                    0 <= k < st.named.len() ==> (#[trigger] self@.named[k]) == (NamedView {
                        consumed: self@.named[k].consumed,
                        ..st.named[k]
                    }),
                forall|k: int| 0 <= k < j ==> (#[trigger] self@.named[k]).consumed,
                forall|k: int| j <= k < st.named.len() ==> (#[trigger] self@.named[k]) == st.named[k],
                pos_part == unconsumed_positional(st.positional),
                strs_view(parts@) == pos_part + remaining_named(st.named.subrange(0, j as int)),
            decreases self.named@.len() - j,
        {
            assert(st.named.subrange(0, j + 1).drop_last() =~= st.named.subrange(0, j as int));
            assert(self@.named[j as int] == self.named@[j as int]@);
            if !self.named[j].consumed {
                let ghost before = strs_view(parts@);
                let mut flag = owned("--");
                flag.append(self.named[j].key.as_str());
                parts.push(flag);
                match &self.named[j].value {
                    Some(v) => {
                        parts.push(v.clone());
                        assert(strs_view(parts@) =~= before + (seq!["--"@ + st.named[j as int].key]
                            + seq![st.named[j as int].value->Some_0]));
                    },
                    None => {
                        assert(strs_view(parts@) =~= before + (seq!["--"@ + st.named[j as int].key]
                            + Seq::<Seq<char>>::empty()));
                    },
                }
                let arg = NamedArgument {
                    key: self.named[j].key.clone(),
                    flag: self.named[j].flag.clone(),
                    value: copy_opt_string(&self.named[j].value),
                    consumed: true,
                };
                let ghost sb = self@;
                proof {
                    use_type_invariant(&*self);
                    let after = named_view(self.named@.update(j as int, arg));
                    assert(after =~= sb.named.update(j as int, arg@));
                    lemma_same_keys_sorted(sb.named, after);
                }
                let mut named: Vec<NamedArgument> = Vec::new();
                std::mem::swap(&mut named, &mut self.named);
                named.set(j, arg);
                self.named = named;
                assert(self@.named =~= sb.named.update(
                    j as int,
                    NamedView { consumed: true, ..sb.named[j as int] },
                ));
            } else {
                assert(remaining_named(st.named.subrange(0, j + 1)) =~= remaining_named(
                    st.named.subrange(0, j as int),
                ));
            }
            j = j + 1;
        }
        assert(st.named.subrange(0, j as int) =~= st.named);
        assert(self@.named =~= all_marked(st).named);
        assert(self@.positional =~= all_marked(st).positional);
        proof {
            use_type_invariant(&*self);
        }
        join_with_spaces(&parts)
    }

    /// Whether every argument has been consumed.
    pub fn all_consumed(&self) -> (r: bool)
        ensures
            r == every_consumed(self@),
    {
        let mut i: usize = 0;
        while i < self.positional.len()
            invariant
                i <= self.positional@.len(),
                forall|k: int| 0 <= k < i ==> (#[trigger] self@.positional[k]).1,
            decreases self.positional@.len() - i,
        {
            assert(self@.positional[i as int].1 == self.positional@[i as int].consumed);
            if !self.positional[i].consumed {
                return false;
            }
            i = i + 1;
        }
        let mut j: usize = 0;
        while j < self.named.len()
            invariant
                j <= self.named@.len(),
                forall|k: int| 0 <= k < self@.positional.len() ==> (#[trigger] self@.positional[k]).1,
                forall|k: int| 0 <= k < j ==> (#[trigger] self@.named[k]).consumed,
            decreases self.named@.len() - j,
        {
            assert(self@.named[j as int].consumed == self.named@[j as int].consumed);
            if !self.named[j].consumed {
                return false;
            }
            j = j + 1;
        }
        true
    }
}

/// The first flag with key `key`.
fn find_in(named: &Vec<NamedArgument>, key: &str) -> (r: Option<usize>)
    ensures
        match find_key(named_view(named@), key@) {
            Some(j) => r is Some && r->Some_0 as int == j,
            None => r is None,
        },
        r matches Some(j) ==> j < named@.len(),
{
    let kv = chars_of(key);
    let mut j: usize = 0;
    let ghost named0 = named_view(named@);
    assert(named0.subrange(0, named0.len() as int) =~= named0);
    while j < named.len()
        invariant
            j <= named@.len(),
            named0 == named_view(named@),
            kv@ == key@,
            find_key(named0, key@) == match find_key(
                named0.subrange(j as int, named0.len() as int),
                key@,
            ) {
                Some(x) => Some(x + j),
                None => None::<int>,
            },
        decreases named@.len() - j,
    {
        let kj = chars_of(named[j].key.as_str());
        let ghost rest = named0.subrange(j as int, named0.len() as int);
        assert(rest[0] == named0[j as int]);
        if crate::text::chars_eq(&kj, &kv) {
            return Some(j);
        }
        assert(rest.drop_first() =~= named0.subrange(j + 1, named0.len() as int));
        j = j + 1;
    }
    None
}

/// The parts joined by single spaces.
pub fn join_with_spaces(parts: &Vec<String>) -> (r: String)
    ensures
        r@ == join_spaces(strs_view(parts@)),
{
    let mut out = String::new();
    let mut i: usize = 0;
    let ghost all = strs_view(parts@);
    assert(all.subrange(0, 0) =~= Seq::<Seq<char>>::empty());
    while i < parts.len()
        invariant
            i <= parts@.len(),
            all == strs_view(parts@),
            out@ == join_spaces(all.subrange(0, i as int)),
        decreases parts@.len() - i,
    {
        assert(all.subrange(0, i + 1).drop_last() =~= all.subrange(0, i as int));
        assert(all[i as int] == parts@[i as int]@);
        if i > 0 {
            out.append(" ");
        } else {
            assert(all.subrange(0, 1) =~= seq![all[0]]);
        }
        out.append(parts[i].as_str());
        i = i + 1;
    }
    assert(all.subrange(0, i as int) =~= all);
    out
}

} // verus!
