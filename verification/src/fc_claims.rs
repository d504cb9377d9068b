//! What a claim of a function call asset calls: one call per method whose arguments could be
//! prepared and whose receiver is valid, in the order of the methods.

use vstd::prelude::*;
use crate::assets::{FCData, MethodData, UserArgsRule};
use crate::json::{apply_markers, markers_well_formed, set_user_markers, UserMarker};
use crate::external::account_id_valid;
use crate::helpers::determine_receiver_id;
use crate::types::{AccountId, Balance, Gas};

verus! {

/// Arguments longer than this (in bytes) skip the user arguments rule.
pub const MAX_ARGS_LEN_FOR_USER_RULES: usize = 4096;

/// A call that a function call claim makes.
pub struct FcCall {
    pub receiver_id: AccountId,
    pub method_name: String,
    pub args: String,
    pub attached_deposit: Balance,
    pub attached_gas: Gas,
}

/// View of a call.
pub struct FcCallView {
    pub receiver_id: Seq<char>,
    pub method_name: Seq<char>,
    pub args: Seq<char>,
    pub attached_deposit: Balance,
    pub attached_gas: Gas,
}

impl View for FcCall {
    type V = FcCallView;

    open spec fn view(&self) -> FcCallView {
        FcCallView {
            receiver_id: self.receiver_id@,
            method_name: self.method_name@,
            args: self.args@,
            attached_deposit: self.attached_deposit,
            attached_gas: self.attached_gas,
        }
    }
}

/// Views of a list of calls.
pub open spec fn call_views(s: Seq<FcCall>) -> Seq<FcCallView> {
    s.map_values(|c: FcCall| c@)
}

/// Who a method calls: the claimer where the method asks for it (never the contract itself),
/// else the method's receiver where it is a valid account ID.
pub open spec fn receiver_for(m: MethodData, account_id: Seq<char>, current_account_id: Seq<char>) -> Option<
    Seq<char>,
> {
    if match m.receiver_to_claimer {
        Some(b) => b,
        None => false,
    } {
        if account_id == current_account_id {
            None
        } else {
            Some(account_id)
        }
    } else if account_id_valid(m.receiver_id@) {
        Some(m.receiver_id@)
    } else {
        None
    }
}

/// The calls of a claim: for each method in order, one call where its arguments were prepared
/// and its receiver resolves, else none.
pub open spec fn fc_calls(
    ms: Seq<MethodData>,
    prepared: Seq<Result<String, String>>,
    account_id: Seq<char>,
    current_account_id: Seq<char>,
) -> Seq<FcCallView>
    decreases ms.len(),
{
    if ms.len() == 0 || prepared.len() != ms.len() {
        Seq::empty()
    } else {
        let rest = fc_calls(ms.drop_last(), prepared.drop_last(), account_id, current_account_id);
        let m = ms.last();
        match (prepared.last(), receiver_for(m, account_id, current_account_id)) {
            (Ok(args), Some(r)) => rest.push(
                FcCallView {
                    receiver_id: r,
                    method_name: m.method_name@,
                    args: args@,
                    attached_deposit: m.attached_deposit,
                    attached_gas: m.attached_gas,
                },
            ),
            _ => rest,
        }
    }
}

/// The text `{}`.
pub open spec fn empty_object_text() -> Seq<char> {
    seq!['{', '}']
}

/// The arguments a method starts from: its own, or `{}` where it has none.
pub fn initial_args(m: &MethodData) -> (r: String)
    ensures
        r@ == if m.args@.len() == 0 {
            empty_object_text()
        } else {
            m.args@
        },
{
    if m.args.as_str().is_empty() {
        proof {
            reveal_strlit("{}");
            assert("{}"@ =~= empty_object_text());
        }
        String::from_str("{}")
    } else {
        m.args.clone()
    }
}

/// Whether arguments are short enough (in UTF-8 bytes) for the user arguments rule to apply.
pub fn applies_user_rules(args: &String) -> (b: bool)
    ensures
        b == ((vstd::utf8::encode_utf8(args@).len() as usize) <= MAX_ARGS_LEN_FOR_USER_RULES),
{
    args.as_str().len() <= MAX_ARGS_LEN_FOR_USER_RULES
}

impl FCData {
    /// The user arguments a claim uses: those given, unless their number differs from the
    /// number of methods, in which case none are used.
    pub fn usable_fc_args(&self, fc_args: Option<Vec<Option<String>>>) -> (r: Option<Vec<Option<String>>>)
        ensures
            r == match fc_args {
                Some(a) => if a@.len() == self.methods@.len() {
                    fc_args
                } else {
                    None
                },
                None => None,
            },
    {
        match fc_args {
            Some(a) => if a.len() == self.methods.len() {
                Some(a)
            } else {
                None
            },
            None => None,
        }
    }

    /// The calls of a claim by `account_id`, from the arguments prepared for each method (an
    /// error where they could not be): a method whose arguments or receiver fail is skipped.
    pub fn claim_fc_asset(
        &self,
        prepared: Vec<Result<String, String>>,
        account_id: &AccountId,
        current_account_id: &AccountId,
    ) -> (r: Vec<FcCall>)
        requires
            prepared@.len() == self.methods@.len(),
        ensures
            call_views(r@) == fc_calls(self.methods@, prepared@, account_id@, current_account_id@),
    {
        let ghost ms = self.methods@;
        let mut calls: Vec<FcCall> = Vec::new();
        let mut i: usize = 0;
        while i < self.methods.len()
            invariant
                i <= ms.len(),
                ms == self.methods@,
                prepared@.len() == ms.len(),
                call_views(calls@) == fc_calls(
                    ms.take(i as int),
                    prepared@.take(i as int),
                    account_id@,
                    current_account_id@,
                ),
            decreases ms.len() - i,
        {
            proof {
                assert(ms.take(i + 1).drop_last() =~= ms.take(i as int));
                assert(prepared@.take(i + 1).drop_last() =~= prepared@.take(i as int));
            }
            let m = &self.methods[i];
            let ghost before = calls@;
            match &prepared[i] {
                Ok(args) => {
                    match determine_receiver_id(
                        &m.receiver_to_claimer,
                        &m.receiver_id,
                        account_id,
                        current_account_id,
                    ) {
                        Ok(receiver_id) => {
                            let c = FcCall {
                                receiver_id,
                                method_name: m.method_name.clone(),
                                args: args.clone(),
                                attached_deposit: m.attached_deposit,
                                attached_gas: m.attached_gas,
                            };
                            calls.push(c);
                            proof {
                                assert(call_views(calls@) =~= call_views(before).push(c@));
                            }
                        },
                        Err(_) => {},
                    }
                },
                Err(_) => {},
            }
            i = i + 1;
        }
        proof {
            assert(ms.take(ms.len() as int) =~= ms);
            assert(prepared@.take(ms.len() as int) =~= prepared@);
        }
        calls
    }
}

/// The text of a result, by its views.
pub open spec fn text_result(r: Result<String, String>) -> Result<Seq<char>, Seq<char>> {
    match r {
        Ok(t) => Ok(t@),
        Err(e) => Err(e@),
    }
}

/// Prepare a method's arguments up to the Keypom arguments. Arguments of at most
/// `MAX_ARGS_LEN_FOR_USER_RULES` bytes are replaced by `combined`, the JSON text of
/// `handle_user_args_rules` on them (or its refusal, which ends here); the others are kept.
/// Then, where the method prefers the user's arguments and the user gave some, their members
/// replace the markers (`markers` as `set_user_markers` takes them). The Keypom arguments are
/// written next, by `add_keypom_args` on the JSON value of the text this leaves.
pub fn handle_fc_args(
    output_args: &mut String,
    combined: Result<String, String>,
    user_args_rule: &Option<UserArgsRule>,
    user_arg: &Option<String>,
    markers: Option<Option<Vec<UserMarker>>>,
) -> (r: Result<(), String>)
    requires
        markers matches Some(Some(ms)) ==> markers_well_formed(ms@),
    ensures
        ({
            let after_rules = if (vstd::utf8::encode_utf8(old(output_args)@).len() as usize)
                <= MAX_ARGS_LEN_FOR_USER_RULES {
                text_result(combined)
            } else {
                Ok(old(output_args)@)
            };
            match after_rules {
                Err(e) => r matches Err(x) && x@ == e && final(output_args)@ == old(output_args)@,
                Ok(t) => if *user_args_rule == Some(UserArgsRule::UserPreferred) && user_arg is Some {
                    match markers {
                        None => r is Err && final(output_args)@ == t,
                        Some(None) => r is Ok && final(output_args)@ == t,
                        Some(Some(ms)) => r is Ok && final(output_args)@ == apply_markers(t, ms@),
                    }
                } else {
                    r is Ok && final(output_args)@ == t
                },
            }
        }),
{
    if applies_user_rules(output_args) {
        match combined {
            Ok(t) => {
                *output_args = t;
            },
            Err(e) => {
                return Err(e);
            },
        }
    }
    let prefers_user = match user_args_rule {
        Some(UserArgsRule::UserPreferred) => true,
        _ => false,
    };
    if prefers_user && user_arg.is_some() {
        set_user_markers(output_args, markers)
    } else {
        Ok(())
    }
}


/// Every call of a function call claim carries the name, deposit and gas of a method of the
/// asset, with that method's prepared arguments; there are never more calls than methods. Where
/// every method's arguments were prepared and every receiver resolves, there is one call per
/// method, in order, each with its own method's deposit, gas and prepared arguments, calling the
/// claimer where the method asks for it and the method's receiver otherwise.
pub proof fn lemma_calls_follow_methods(
    ms: Seq<MethodData>,
    prepared: Seq<Result<String, String>>,
    account_id: Seq<char>,
    current_account_id: Seq<char>,
)
    ensures
        ({
            let cs = fc_calls(ms, prepared, account_id, current_account_id);
            &&& cs.len() <= ms.len()
            &&& forall|i: int|
                0 <= i < cs.len() ==> exists|j: int|
                    0 <= j < ms.len() && #[trigger] cs[i].method_name == ms[j].method_name@
                        && cs[i].attached_deposit == ms[j].attached_deposit && cs[i].attached_gas
                        == ms[j].attached_gas && prepared[j] is Ok && cs[i].args == prepared[j]->Ok_0@
        }),
        prepared.len() == ms.len() && (forall|j: int|
            0 <= j < ms.len() ==> prepared[j] is Ok && receiver_for(#[trigger] ms[j], account_id, current_account_id)
                is Some) ==> {
            let cs = fc_calls(ms, prepared, account_id, current_account_id);
            &&& cs.len() == ms.len()
            &&& forall|j: int|
                0 <= j < ms.len() ==> #[trigger] cs[j].attached_deposit == ms[j].attached_deposit
                    && cs[j].attached_gas == ms[j].attached_gas && cs[j].method_name == ms[j].method_name@
                    && cs[j].args == prepared[j]->Ok_0@ && cs[j].receiver_id == (if ms[j].receiver_to_claimer
                    == Some(true) {
                    account_id
                } else {
                    ms[j].receiver_id@
                })
        },
    decreases ms.len(),
{
    if ms.len() > 0 && prepared.len() == ms.len() {
        let ms0 = ms.drop_last();
        let p0 = prepared.drop_last();
        lemma_calls_follow_methods(ms0, p0, account_id, current_account_id);
        let rest = fc_calls(ms0, p0, account_id, current_account_id);
        let cs = fc_calls(ms, prepared, account_id, current_account_id);
        assert forall|i: int| 0 <= i < cs.len() implies exists|j: int|
            0 <= j < ms.len() && #[trigger] cs[i].method_name == ms[j].method_name@ && cs[i].attached_deposit
                == ms[j].attached_deposit && cs[i].attached_gas == ms[j].attached_gas && prepared[j] is Ok
                && cs[i].args == prepared[j]->Ok_0@ by {
            if i < rest.len() {
                assert(cs[i] == rest[i]);
                let j = choose|j: int|
                    0 <= j < ms0.len() && #[trigger] rest[i].method_name == ms0[j].method_name@
                        && rest[i].attached_deposit == ms0[j].attached_deposit && rest[i].attached_gas
                        == ms0[j].attached_gas && p0[j] is Ok && rest[i].args == p0[j]->Ok_0@;
                assert(ms0[j] == ms[j] && p0[j] == prepared[j]);
            } else {
                assert(cs[i].method_name == ms[ms.len() - 1].method_name@);
            }
        }
        if forall|j: int|
            0 <= j < ms.len() ==> prepared[j] is Ok && receiver_for(#[trigger] ms[j], account_id, current_account_id)
                is Some {
            assert forall|j: int|
                0 <= j < ms0.len() implies p0[j] is Ok && receiver_for(#[trigger] ms0[j], account_id, current_account_id)
                is Some by {
                assert(ms0[j] == ms[j] && p0[j] == prepared[j]);
            }
            assert(prepared[ms.len() - 1] is Ok && receiver_for(ms[ms.len() - 1], account_id, current_account_id) is Some);
            assert forall|j: int| 0 <= j < ms.len() implies #[trigger] cs[j].attached_deposit == ms[j].attached_deposit
                && cs[j].attached_gas == ms[j].attached_gas && cs[j].method_name == ms[j].method_name@
                && cs[j].args == prepared[j]->Ok_0@ && cs[j].receiver_id == (if ms[j].receiver_to_claimer
                == Some(true) {
                account_id
            } else {
                ms[j].receiver_id@
            }) by {
                if j < ms0.len() {
                    assert(cs[j] == rest[j]);
                    assert(ms0[j] == ms[j]);
                } else {
                    let m = ms[j];
                    let r = receiver_for(m, account_id, current_account_id).unwrap();
                    assert(rest.len() == ms0.len());
                    assert(cs == rest.push(
                        FcCallView {
                            receiver_id: r,
                            method_name: m.method_name@,
                            args: prepared[j]->Ok_0@,
                            attached_deposit: m.attached_deposit,
                            attached_gas: m.attached_gas,
                        },
                    ));
                    assert(cs[j].receiver_id == r);
                }
            }
        }
    }
}

} // verus!
