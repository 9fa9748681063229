//! Argument assembly: the per-invocation state machines that group incoming
//! tokens into one program invocation's argument list.
//!
//! The Append variant collects up to `max_args` tokens after a fixed prefix;
//! the Template variant fills placeholder slots by input index, broadcasting
//! one input value to every slot that references its index.

use vstd::prelude::*;
use vstd::utf8::encode_utf8;
use crate::scan::{find_byte, first_pos, parse_uint, parse_usize};

verus! {

/// After pushing one string, a string vector's deep view is the old deep
/// view with the string's characters appended.
pub proof fn lemma_push_deep_view(pre: Vec<String>, post: Vec<String>, s: String)
    requires
        post@ == pre@.push(s),
    ensures
        post.deep_view() == pre.deep_view().push(s@),
{
    let lhs: Seq<Seq<char>> = post.deep_view();
    let rhs: Seq<Seq<char>> = pre.deep_view().push(s@);
    assert forall|k: int| 0 <= k < lhs.len() implies lhs[k] == rhs[k] by {
        if k < pre@.len() {
            assert(post@[k] == pre@[k]);
        }
    }
    assert(lhs =~= rhs);
}

/// Builds an argument list by appending each incoming token after a fixed
/// prefix, up to `max_args` tokens.
pub struct AppendArgs {
    pub initial_args: Vec<String>,
    pub args: Vec<String>,
    pub max_args: usize,
    pub min_args: usize,
}

/// One slot of a template: a literal value, or a placeholder waiting for
/// the input value with the given index.
pub enum TemplateArg {
    IndexedPlaceHolder(usize),
    Value(String),
}

/// Fills an ordered list of template slots. Each pushed value replaces
/// every placeholder slot that references the value's input index.
pub struct TemplateArgs {
    pub arg_list: Vec<TemplateArg>,
    pub idx: usize,
    pub finalized_count: usize,
}

/// A per-invocation state machine that accumulates tokens into a finished
/// argument list and reports when it is ready to spawn.
pub trait ArgBuilder: Sized {
    /// Structural invariant, established at construction and preserved by
    /// `push_arg`.
    spec fn wf(&self) -> bool;

    /// No further token will be accepted; a spawn is due.
    spec fn finalized(&self) -> bool;

    /// Whether one more token may be pushed: the builder is not finalized
    /// and can count one more input.
    spec fn can_push(&self) -> bool;

    /// Eligible to spawn at end of input.
    spec fn spec_viable(&self) -> bool;

    /// The argument list as currently assembled.
    spec fn spec_args(&self) -> Seq<Seq<char>>;

    /// How one accepted token changes the builder.
    spec fn push_rel(pre: Self, arg: Seq<char>, post: Self) -> bool;

    /// Accepts one token; returns true exactly when the builder is now
    /// finalized.
    fn push_arg(&mut self, arg: &str) -> (r: bool)
        requires
            old(self).wf(),
            old(self).can_push(),
        ensures
            final(self).wf(),
            Self::push_rel(*old(self), arg@, *final(self)),
            r == final(self).finalized(),
    ;

    /// The argument list assembled so far, valid in any state.
    fn arg_list(&self) -> (r: Vec<String>)
        requires
            self.wf(),
        ensures
            r.deep_view() == self.spec_args(),
    ;

    /// Whether the builder may be spawned now.
    fn viable(&self) -> (r: bool)
        requires
            self.wf(),
        ensures
            r == self.spec_viable(),
    ;
}

impl ArgBuilder for AppendArgs {
    open spec fn wf(&self) -> bool {
        &&& self.args@.len() <= self.max_args
        &&& self.min_args <= self.max_args
    }

    open spec fn finalized(&self) -> bool {
        self.args@.len() == self.max_args
    }

    open spec fn can_push(&self) -> bool {
        self.args@.len() < self.max_args
    }

    open spec fn spec_viable(&self) -> bool {
        self.args@.len() >= self.min_args
    }

    open spec fn spec_args(&self) -> Seq<Seq<char>> {
        self.initial_args.deep_view() + self.args.deep_view()
    }

    open spec fn push_rel(pre: Self, arg: Seq<char>, post: Self) -> bool {
        &&& post.initial_args.deep_view() == pre.initial_args.deep_view()
        &&& post.args.deep_view() == pre.args.deep_view().push(arg)
        &&& post.args@.len() == pre.args@.len() + 1
        &&& post.max_args == pre.max_args
        &&& post.min_args == pre.min_args
    }

    fn push_arg(&mut self, arg: &str) -> (r: bool) {
        let ghost pre = self.args;
        self.args.push(arg.to_owned());
        proof {
            lemma_push_deep_view(pre, self.args, self.args@.last());
        }
        self.args.len() == self.max_args
    }

    #[verifier::loop_isolation(false)]
    fn arg_list(&self) -> (r: Vec<String>) {
        let mut r = self.initial_args.clone();
        proof {
            assert(r@ =~= self.initial_args@);
            assert(r.deep_view() =~= self.initial_args.deep_view());
        }
        let n: usize = self.args.len();
        let mut i: usize = 0;
        while i < n
            invariant
                0 <= i <= n,
                r.deep_view() == self.initial_args.deep_view() + self.args.deep_view().take(
                    i as int,
                ),
            decreases n - i,
        {
            let s: String = self.args[i].clone();
            proof {
                assert(s == self.args@[i as int]);
            }
            let ghost pre = r;
            r.push(s);
            proof {
                lemma_push_deep_view(pre, r, r@.last());
                let lhs: Seq<Seq<char>> = pre.deep_view().push(self.args.deep_view()[i as int]);
                let rhs: Seq<Seq<char>> = self.initial_args.deep_view()
                    + self.args.deep_view().take(i + 1 as int);
                assert(lhs =~= rhs);
            }
            i = i + 1;
        }
        proof {
            assert(self.args.deep_view().take(n as int) =~= self.args.deep_view());
        }
        r
    }

    /// Returns true when enough tokens have been collected for a spawn.
    fn viable(&self) -> (r: bool) {
        self.args.len() >= self.min_args
    }
}

/// How many slots already hold a literal value.
pub open spec fn value_count(s: Seq<TemplateArg>) -> int
    decreases s.len(),
{
    if s.len() == 0 {
        0
    } else {
        value_count(s.drop_last()) + match s.last() {
            TemplateArg::Value(_) => 1int,
            TemplateArg::IndexedPlaceHolder(_) => 0int,
        }
    }
}

pub proof fn lemma_value_count_le(s: Seq<TemplateArg>)
    ensures
        0 <= value_count(s) <= s.len(),
    decreases s.len(),
{
    if s.len() > 0 {
        lemma_value_count_le(s.drop_last());
    }
}

/// A slot still holding a placeholder keeps the value count strictly under
/// the slot count.
pub proof fn lemma_value_count_lt(s: Seq<TemplateArg>, i: int)
    requires
        0 <= i < s.len(),
        s[i] is IndexedPlaceHolder,
    ensures
        value_count(s) < s.len(),
    decreases s.len(),
{
    lemma_value_count_le(s.drop_last());
    if i < s.len() - 1 {
        assert(s.drop_last()[i] == s[i]);
        lemma_value_count_lt(s.drop_last(), i);
    }
}

/// Filling a placeholder slot with a value raises the value count by one.
pub proof fn lemma_value_count_fill(s: Seq<TemplateArg>, i: int, v: TemplateArg)
    requires
        0 <= i < s.len(),
        s[i] is IndexedPlaceHolder,
        v is Value,
    ensures
        value_count(s.update(i, v)) == value_count(s) + 1,
    decreases s.len(),
{
    let t = s.update(i, v);
    if i == s.len() - 1 {
        assert(t.drop_last() =~= s.drop_last());
    } else {
        assert(t.drop_last() =~= s.drop_last().update(i, v));
        assert(t.last() == s.last());
        lemma_value_count_fill(s.drop_last(), i, v);
    }
}

/// The literal values held by the slots, in template order.
pub open spec fn literal_values(s: Seq<TemplateArg>) -> Seq<Seq<char>>
    decreases s.len(),
{
    if s.len() == 0 {
        Seq::empty()
    } else {
        match s.last() {
            TemplateArg::Value(v) => literal_values(s.drop_last()).push(v@),
            TemplateArg::IndexedPlaceHolder(_) => literal_values(s.drop_last()),
        }
    }
}

/// The input index referenced by a template element whose bytes hold both a
/// `{` and a `}`: the number written between the first `{` and the first
/// `}`, or the element's own position `own` when the braces are reversed,
/// empty, or hold anything but a number that fits in `usize`.
pub open spec fn placeholder_index(bytes: Seq<u8>, own: int) -> int {
    let i = first_pos(bytes, 123);
    let j = first_pos(bytes, 125);
    if j < i || j == i + 1 {
        own
    } else {
        match parse_uint(bytes.subrange(i + 1, j)) {
            Some(v) => if v <= usize::MAX {
                v
            } else {
                own
            },
            None => own,
        }
    }
}

/// The slot built from template element `elem` standing at position `own`:
/// an element with no brace is a pre-filled literal; any element with a
/// brace becomes one placeholder, resolved from its first `{...}` pair or
/// falling back to the element's own position.
pub open spec fn slot_matches(elem: Seq<char>, own: int, slot: TemplateArg) -> bool {
    let bytes = encode_utf8(elem);
    let has_open = first_pos(bytes, 123) < bytes.len();
    let has_close = first_pos(bytes, 125) < bytes.len();
    if !has_open && !has_close {
        slot matches TemplateArg::Value(v) && v@ == elem
    } else if has_open && has_close {
        slot matches TemplateArg::IndexedPlaceHolder(k) && k == placeholder_index(bytes, own)
    } else {
        slot matches TemplateArg::IndexedPlaceHolder(k) && k == own
    }
}

/// The builder state that `TemplateArgs::new` makes of the template
/// `elems`.
pub open spec fn template_makes(elems: Seq<Seq<char>>, t: TemplateArgs) -> bool {
    &&& t.arg_list@.len() == elems.len()
    &&& forall|i: int|
        0 <= i < elems.len() ==> slot_matches(elems[i], i, #[trigger] t.arg_list@[i])
    &&& t.idx == 0
    &&& t.wf()
}

/// How `push_arg` changes one slot: a placeholder waiting for input `idx`
/// is filled with the pushed value, every other slot is unchanged.
pub open spec fn slot_push(pre: TemplateArg, idx: int, arg: Seq<char>, post: TemplateArg) -> bool {
    if pre matches TemplateArg::IndexedPlaceHolder(k) && k == idx {
        post matches TemplateArg::Value(v) && v@ == arg
    } else {
        post == pre
    }
}

impl TemplateArgs {
    /// Builds a Template builder from the template elements. Never fails:
    /// malformed placeholder syntax falls back to the element's own
    /// position, so every template yields a builder.
    #[verifier::loop_isolation(false)]
    pub fn new(templ: Vec<String>) -> (r: Result<TemplateArgs, String>)
        ensures
            r matches Ok(t) && template_makes(templ.deep_view(), t),
    {
        let n: usize = templ.len();
        let mut slots: Vec<TemplateArg> = Vec::new();
        let mut count: usize = 0;
        let mut pos: usize = 0;
        while pos < n
            invariant
                0 <= pos <= n,
                slots@.len() == pos,
                count == value_count(slots@),
                forall|i: int|
                    0 <= i < pos ==> slot_matches(
                        templ.deep_view()[i],
                        i,
                        #[trigger] slots@[i],
                    ),
            decreases n - pos,
        {
            let elem: &String = &templ[pos];
            let bytes: &[u8] = elem.as_str().as_bytes();
            proof {
                assert(bytes@ == encode_utf8(templ.deep_view()[pos as int]));
            }
            let blen: usize = bytes.len();
            let open_pos = find_byte(bytes, 123);
            let close_pos = find_byte(bytes, 125);
            proof {
                crate::scan::lemma_first_pos(bytes@, 123);
                crate::scan::lemma_first_pos(bytes@, 125);
            }
            let slot: TemplateArg;
            let is_value: bool;
            if open_pos == blen && close_pos == blen {
                slot = TemplateArg::Value(elem.clone());
                is_value = true;
            } else if open_pos < blen && close_pos < blen {
                let k: usize;
                if close_pos < open_pos || close_pos == open_pos + 1 {
                    k = pos;
                } else {
                    let sub = vstd::slice::slice_subrange(bytes, open_pos + 1, close_pos);
                    match parse_usize(sub) {
                        Some(v) => {
                            k = v;
                        },
                        None => {
                            k = pos;
                        },
                    }
                }
                slot = TemplateArg::IndexedPlaceHolder(k);
                is_value = false;
            } else {
                slot = TemplateArg::IndexedPlaceHolder(pos);
                is_value = false;
            }
            let ghost pre = slots@;
            slots.push(slot);
            proof {
                assert(slots@.drop_last() =~= pre);
                lemma_value_count_le(pre);
            }
            if is_value {
                count = count + 1;
            }
            pos = pos + 1;
        }
        Ok(TemplateArgs { arg_list: slots, idx: 0, finalized_count: count })
    }
}

impl ArgBuilder for TemplateArgs {
    open spec fn wf(&self) -> bool {
        self.finalized_count == value_count(self.arg_list@)
    }

    open spec fn finalized(&self) -> bool {
        self.finalized_count == self.arg_list@.len()
    }

    open spec fn can_push(&self) -> bool {
        &&& !self.finalized()
        &&& self.idx < usize::MAX
    }

    open spec fn spec_viable(&self) -> bool {
        self.finalized()
    }

    open spec fn spec_args(&self) -> Seq<Seq<char>> {
        literal_values(self.arg_list@)
    }

    open spec fn push_rel(pre: Self, arg: Seq<char>, post: Self) -> bool {
        &&& post.arg_list@.len() == pre.arg_list@.len()
        &&& forall|i: int|
            0 <= i < pre.arg_list@.len() ==> slot_push(
                pre.arg_list@[i],
                pre.idx as int,
                arg,
                #[trigger] post.arg_list@[i],
            )
        &&& post.idx == pre.idx + 1
    }

    #[verifier::loop_isolation(false)]
    fn push_arg(&mut self, arg: &str) -> (r: bool) {
        let n: usize = self.arg_list.len();
        let mut i: usize = 0;
        while i < n
            invariant
                0 <= i <= n,
                n == self.arg_list@.len(),
                self.idx == old(self).idx,
                self.finalized_count == value_count(self.arg_list@),
                forall|j: int|
                    0 <= j < i ==> slot_push(
                        old(self).arg_list@[j],
                        old(self).idx as int,
                        arg@,
                        #[trigger] self.arg_list@[j],
                    ),
                forall|j: int| i <= j < n ==> self.arg_list@[j] == old(self).arg_list@[j],
            decreases n - i,
        {
            let is_match: bool = match &self.arg_list[i] {
                TemplateArg::IndexedPlaceHolder(k) => *k == self.idx,
                TemplateArg::Value(_) => false,
            };
            if is_match {
                let filled = TemplateArg::Value(arg.to_owned());
                proof {
                    lemma_value_count_lt(self.arg_list@, i as int);
                    lemma_value_count_fill(self.arg_list@, i as int, filled);
                }
                self.arg_list[i] = filled;
                self.finalized_count = self.finalized_count + 1;
            }
            i = i + 1;
        }
        self.idx = self.idx + 1;
        self.finalized_count == self.arg_list.len()
    }

    #[verifier::loop_isolation(false)]
    fn arg_list(&self) -> (r: Vec<String>) {
        let n: usize = self.arg_list.len();
        let mut r: Vec<String> = Vec::new();
        let mut i: usize = 0;
        while i < n
            invariant
                0 <= i <= n,
                r.deep_view() == literal_values(self.arg_list@.take(i as int)),
            decreases n - i,
        {
            proof {
                assert(self.arg_list@.take(i + 1 as int).drop_last() =~= self.arg_list@.take(
                    i as int,
                ));
                assert(self.arg_list@.take(i + 1 as int).last() == self.arg_list@[i as int]);
            }
            match &self.arg_list[i] {
                TemplateArg::Value(v) => {
                    let s: String = v.clone();
                    r.push(s);
                    proof {
                        assert(r.deep_view() =~= literal_values(
                            self.arg_list@.take(i + 1 as int),
                        ));
                    }
                },
                TemplateArg::IndexedPlaceHolder(_) => {},
            }
            i = i + 1;
        }
        proof {
            assert(self.arg_list@.take(n as int) =~= self.arg_list@);
        }
        r
    }

    /// Returns true when every slot is filled; a Template builder has no
    /// partial-flush state, so viability and finalization coincide.
    fn viable(&self) -> (r: bool) {
        self.finalized_count == self.arg_list.len()
    }
}

/// The closed set of builder variants the pool dispatches over.
pub enum ArgBuilderType {
    Template(TemplateArgs),
    Append(AppendArgs),
}

impl ArgBuilder for ArgBuilderType {
    open spec fn wf(&self) -> bool {
        match self {
            ArgBuilderType::Template(t) => t.wf(),
            ArgBuilderType::Append(a) => a.wf(),
        }
    }

    open spec fn finalized(&self) -> bool {
        match self {
            ArgBuilderType::Template(t) => t.finalized(),
            ArgBuilderType::Append(a) => a.finalized(),
        }
    }

    open spec fn can_push(&self) -> bool {
        match self {
            ArgBuilderType::Template(t) => t.can_push(),
            ArgBuilderType::Append(a) => a.can_push(),
        }
    }

    open spec fn spec_viable(&self) -> bool {
        match self {
            ArgBuilderType::Template(t) => t.spec_viable(),
            ArgBuilderType::Append(a) => a.spec_viable(),
        }
    }

    open spec fn spec_args(&self) -> Seq<Seq<char>> {
        match self {
            ArgBuilderType::Template(t) => t.spec_args(),
            ArgBuilderType::Append(a) => a.spec_args(),
        }
    }

    open spec fn push_rel(pre: Self, arg: Seq<char>, post: Self) -> bool {
        match (pre, post) {
            (ArgBuilderType::Template(t1), ArgBuilderType::Template(t2)) => TemplateArgs::push_rel(
                t1,
                arg,
                t2,
            ),
            (ArgBuilderType::Append(a1), ArgBuilderType::Append(a2)) => AppendArgs::push_rel(
                a1,
                arg,
                a2,
            ),
            _ => false,
        }
    }

    fn push_arg(&mut self, arg: &str) -> (r: bool) {
        match self {
            ArgBuilderType::Append(append) => append.push_arg(arg),
            ArgBuilderType::Template(template) => template.push_arg(arg),
        }
    }

    fn arg_list(&self) -> (r: Vec<String>) {
        match self {
            ArgBuilderType::Append(append) => append.arg_list(),
            ArgBuilderType::Template(template) => template.arg_list(),
        }
    }

    fn viable(&self) -> (r: bool) {
        match self {
            ArgBuilderType::Append(append) => append.viable(),
            ArgBuilderType::Template(template) => template.viable(),
        }
    }
}

/// Produces one fresh builder per call, with no state shared between the
/// builders it makes.
pub trait ArgBuilderMaker<T: ArgBuilder> {
    /// Configuration invariant needed for the made builders to be
    /// well-formed.
    spec fn wf(&self) -> bool;

    /// Which builder states this maker can hand out.
    spec fn makes(&self, b: T) -> bool;

    fn make(&self) -> (r: T)
        requires
            self.wf(),
        ensures
            r.wf(),
            self.makes(r),
    ;
}

/// Configuration holder that makes either builder variant: a Template
/// builder over `initial_args` as the template, or an Append builder with
/// `initial_args` as the fixed prefix.
pub struct DynArgBuilderMaker {
    pub is_template: bool,
    pub initial_args: Vec<String>,
    pub max_args: usize,
    pub min_args: usize,
}

impl ArgBuilderMaker<ArgBuilderType> for DynArgBuilderMaker {
    open spec fn wf(&self) -> bool {
        self.min_args <= self.max_args
    }

    open spec fn makes(&self, b: ArgBuilderType) -> bool {
        if self.is_template {
            b matches ArgBuilderType::Template(t) && template_makes(
                self.initial_args.deep_view(),
                t,
            )
        } else {
            b matches ArgBuilderType::Append(a) && {
                &&& a.initial_args.deep_view() == self.initial_args.deep_view()
                &&& a.args@.len() == 0
                &&& a.max_args == self.max_args
                &&& a.min_args == self.min_args
            }
        }
    }

    fn make(&self) -> (r: ArgBuilderType) {
        let init = self.initial_args.clone();
        proof {
            assert(init@ =~= self.initial_args@);
            assert(init.deep_view() =~= self.initial_args.deep_view());
        }
        if self.is_template {
            match TemplateArgs::new(init) {
                Ok(t) => ArgBuilderType::Template(t),
                Err(_) => {
                    proof {
                        assert(false);
                    }
                    unreached()
                },
            }
        } else {
            ArgBuilderType::Append(
                AppendArgs {
                    initial_args: init,
                    args: Vec::new(),
                    max_args: self.max_args,
                    min_args: self.min_args,
                },
            )
        }
    }
}

/// Round-trip law, single step: accepting a token leaves an Append
/// builder's argument list equal to its old list with the token appended.
pub proof fn lemma_append_push_arg_list(pre: AppendArgs, arg: Seq<char>, post: AppendArgs)
    requires
        AppendArgs::push_rel(pre, arg, post),
    ensures
        post.spec_args() == pre.spec_args().push(arg),
{
    assert(pre.initial_args.deep_view() + pre.args.deep_view().push(arg) =~= (
    pre.initial_args.deep_view() + pre.args.deep_view()).push(arg));
}

/// The chain of builder states an Append builder passes through while it
/// accepts `toks`, one push per token, in order.
pub open spec fn append_accepts(pre: AppendArgs, toks: Seq<Seq<char>>, post: AppendArgs) -> bool
    decreases toks.len(),
{
    if toks.len() == 0 {
        post == pre
    } else {
        exists|mid: AppendArgs|
            #[trigger] AppendArgs::push_rel(pre, toks[0], mid) && append_accepts(
                mid,
                toks.drop_first(),
                post,
            )
    }
}

/// Round-trip law: whatever the finalization state, an Append builder's
/// argument list is its fixed prefix followed by every token accepted so
/// far, in arrival order.
pub proof fn lemma_append_arg_list_roundtrip(pre: AppendArgs, toks: Seq<Seq<char>>, post: AppendArgs)
    requires
        append_accepts(pre, toks, post),
    ensures
        post.spec_args() == pre.spec_args() + toks,
    decreases toks.len(),
{
    if toks.len() == 0 {
        assert(pre.spec_args() + toks =~= pre.spec_args());
    } else {
        let mid = choose|mid: AppendArgs|
            #[trigger] AppendArgs::push_rel(pre, toks[0], mid) && append_accepts(
                mid,
                toks.drop_first(),
                post,
            );
        lemma_append_push_arg_list(pre, toks[0], mid);
        lemma_append_arg_list_roundtrip(mid, toks.drop_first(), post);
        assert(pre.spec_args().push(toks[0]) + toks.drop_first() =~= pre.spec_args() + toks);
    }
}

} // verus!
