use vstd::prelude::*;

use crate::hash::bytes_dup;

verus! {

/// A 28-byte script hash.
pub type ScriptHash = crate::hash::Hash<28>;

/// A 28-byte payment key hash, as referenced by native scripts.
pub type AddressKeyHash = crate::hash::Hash<28>;

/// The era a block was sealed under.
#[derive(Debug, Copy, Clone, PartialEq, Eq, Structural)]
pub enum Era {
    Byron,
    Shelley,
    Allegra,
    Mary,
    Alonzo,
    Babbage,
    Conway,
}

/// Mathematical value of a [`Script`].
#[verifier::ext_equal]
pub enum ScriptV {
    V1(Seq<u8>),
    V2(Seq<u8>),
    V3(Seq<u8>),
}

/// A Plutus script, tagged with its language version.
pub enum Script {
    V1(Vec<u8>),
    V2(Vec<u8>),
    V3(Vec<u8>),
}

impl View for Script {
    type V = ScriptV;

    open spec fn view(&self) -> ScriptV {
        match self {
            Script::V1(b) => ScriptV::V1(b@),
            Script::V2(b) => ScriptV::V2(b@),
            Script::V3(b) => ScriptV::V3(b@),
        }
    }
}

impl Clone for Script {
    fn clone(&self) -> (r: Self)
        ensures
            r@ == self@,
    {
        match self {
            Script::V1(b) => Script::V1(bytes_dup(b)),
            Script::V2(b) => Script::V2(bytes_dup(b)),
            Script::V3(b) => Script::V3(bytes_dup(b)),
        }
    }
}

/// Mathematical value of a [`NativeScript`].
#[verifier::ext_equal]
pub enum NativeScriptV {
    ScriptPubkey(Seq<u8>),
    ScriptAll(Seq<NativeScriptV>),
    ScriptAny(Seq<NativeScriptV>),
    ScriptNOfK(u32, Seq<NativeScriptV>),
    InvalidBefore(u64),
    InvalidHereafter(u64),
}

/// A native (phase-1) script: a recursive sum of signature requirements
/// and time bounds.
pub enum NativeScript {
    ScriptPubkey(AddressKeyHash),
    ScriptAll(Vec<NativeScript>),
    ScriptAny(Vec<NativeScript>),
    ScriptNOfK(u32, Vec<NativeScript>),
    InvalidBefore(u64),
    InvalidHereafter(u64),
}

/// The mathematical values of a sequence of native scripts.
pub open spec fn native_scripts_v(q: Seq<NativeScript>) -> Seq<NativeScriptV>
    decreases q, q.len(),
{
    if q.len() == 0 {
        Seq::empty()
    } else {
        native_scripts_v(q.drop_last()).push(native_script_v(q.last()))
    }
}

/// The mathematical value of a native script.
pub open spec fn native_script_v(s: NativeScript) -> NativeScriptV
    decreases s, 0int,
{
    match s {
        NativeScript::ScriptPubkey(h) => NativeScriptV::ScriptPubkey(h@),
        NativeScript::ScriptAll(v) => NativeScriptV::ScriptAll(native_scripts_v(v@)),
        NativeScript::ScriptAny(v) => NativeScriptV::ScriptAny(native_scripts_v(v@)),
        NativeScript::ScriptNOfK(n, v) => NativeScriptV::ScriptNOfK(n, native_scripts_v(v@)),
        NativeScript::InvalidBefore(slot) => NativeScriptV::InvalidBefore(slot),
        NativeScript::InvalidHereafter(slot) => NativeScriptV::InvalidHereafter(slot),
    }
}

/// The value of a sequence of native scripts is taken member by member.
pub proof fn lemma_native_scripts_v(q: Seq<NativeScript>)
    ensures
        native_scripts_v(q).len() == q.len(),
        forall|i: int| 0 <= i < q.len() ==> native_scripts_v(q)[i] == native_script_v(#[trigger] q[i]),
    decreases q.len(),
{
    if q.len() > 0 {
        lemma_native_scripts_v(q.drop_last());
        assert forall|i: int| 0 <= i < q.len() implies native_scripts_v(q)[i] == native_script_v(
            #[trigger] q[i],
        ) by {
            if i < q.len() - 1 {
                assert(q.drop_last()[i] == q[i]);
                assert(native_scripts_v(q.drop_last())[i] == native_script_v(q.drop_last()[i]));
            } else {
                assert(q.last() == q[i]);
            }
        }
    }
}

impl View for NativeScript {
    type V = NativeScriptV;

    open spec fn view(&self) -> NativeScriptV {
        native_script_v(*self)
    }
}

fn native_script_vec_dup(v: &Vec<NativeScript>) -> (r: Vec<NativeScript>)
    ensures
        r@.len() == v@.len(),
        forall|i: int| 0 <= i < v@.len() ==> (#[trigger] r@[i])@ == v@[i]@,
    decreases *v,
{
    let mut r: Vec<NativeScript> = Vec::new();
    let n: usize = v.len();
    let mut i: usize = 0;
    while i < n
        invariant
            n == v@.len(),
            0 <= i <= n,
            r@.len() == i,
            forall|j: int| 0 <= j < i ==> (#[trigger] r@[j])@ == v@[j]@,
        decreases n - i,
    {
        let c = v[i].clone();
        r.push(c);
        i = i + 1;
    }
    r
}

impl Clone for NativeScript {
    fn clone(&self) -> (r: Self)
        ensures
            r@ == self@,
        decreases *self,
    {
        match self {
            NativeScript::ScriptPubkey(h) => NativeScript::ScriptPubkey(h.clone()),
            NativeScript::ScriptAll(v) => {
                let c = native_script_vec_dup(v);
                proof {
                    lemma_native_scripts_v(c@);
                    lemma_native_scripts_v(v@);
                    assert forall|i: int| 0 <= i < c@.len() implies native_scripts_v(c@)[i]
                        == native_scripts_v(v@)[i] by {
                        assert(c@[i]@ == v@[i]@);
                    }
                    assert(native_scripts_v(c@) =~= native_scripts_v(v@));
                }
                NativeScript::ScriptAll(c)
            },
            NativeScript::ScriptAny(v) => {
                let c = native_script_vec_dup(v);
                proof {
                    lemma_native_scripts_v(c@);
                    lemma_native_scripts_v(v@);
                    assert forall|i: int| 0 <= i < c@.len() implies native_scripts_v(c@)[i]
                        == native_scripts_v(v@)[i] by {
                        assert(c@[i]@ == v@[i]@);
                    }
                    assert(native_scripts_v(c@) =~= native_scripts_v(v@));
                }
                NativeScript::ScriptAny(c)
            },
            NativeScript::ScriptNOfK(n, v) => {
                let c = native_script_vec_dup(v);
                proof {
                    lemma_native_scripts_v(c@);
                    lemma_native_scripts_v(v@);
                    assert forall|i: int| 0 <= i < c@.len() implies native_scripts_v(c@)[i]
                        == native_scripts_v(v@)[i] by {
                        assert(c@[i]@ == v@[i]@);
                    }
                    assert(native_scripts_v(c@) =~= native_scripts_v(v@));
                }
                NativeScript::ScriptNOfK(*n, c)
            },
            NativeScript::InvalidBefore(slot) => NativeScript::InvalidBefore(*slot),
            NativeScript::InvalidHereafter(slot) => NativeScript::InvalidHereafter(*slot),
        }
    }
}

} // verus!
