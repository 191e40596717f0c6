//! How the secrets of a run are handed to its command.

use vstd::prelude::*;
use vstd::utf8::{decode_utf8, encode_utf8, valid_utf8};

use crate::error::success;
use crate::error::{Error, ErrorModel, Fault};
use crate::manifest::{binding_check, descriptor, BindingModel, TargetModel};
use crate::manifest::{target_as_fd, Target, Transport};
use crate::secret::{push_bytes, SecretBytes};
use crate::session::{Delivery, DeliveryModel};
use crate::session::delivery_models;
use crate::text::{spelled_number, utf8_error_words};
use crate::text::{same_text, text_from_utf8};

verus! {

broadcast use vstd::string::group_string_axioms;

/// What a command receives: at most one secret on standard input, secrets in environment variables
/// and secrets on file descriptors.
#[derive(Debug)]
pub struct DeliveryPlan {
    pub stdin: Option<SecretBytes>,
    pub variables: Vec<(String, String)>,
    pub descriptors: Vec<(i32, SecretBytes)>,
}

/// What a command receives.
#[verifier::ext_equal]
pub struct PlanModel {
    pub stdin: Option<Seq<u8>>,
    pub variables: Seq<(Seq<char>, Seq<char>)>,
    pub descriptors: Seq<(i32, Seq<u8>)>,
}

impl View for DeliveryPlan {
    type V = PlanModel;

    open spec fn view(&self) -> PlanModel {
        PlanModel {
            stdin: match self.stdin {
                Some(value) => Some(value@),
                None => None,
            },
            variables: Seq::new(
                self.variables@.len(),
                |i: int| (self.variables@[i].0@, self.variables@[i].1@),
            ),
            descriptors: Seq::new(
                self.descriptors@.len(),
                |i: int| (self.descriptors@[i].0, self.descriptors@[i].1@),
            ),
        }
    }
}

/// A plan that hands nothing over.
pub open spec fn empty_plan() -> PlanModel {
    PlanModel { stdin: None, variables: Seq::empty(), descriptors: Seq::empty() }
}

/// Whether a plan sets this variable.
pub open spec fn sets(plan: PlanModel, name: Seq<char>) -> bool {
    exists|i: int| 0 <= i < plan.variables.len() && (#[trigger] plan.variables[i]).0 == name
}

/// Whether a plan uses this file descriptor.
pub open spec fn opens(plan: PlanModel, number: i32) -> bool {
    exists|i: int| 0 <= i < plan.descriptors.len() && (#[trigger] plan.descriptors[i]).0 == number
}

/// A plan with one more delivery.
pub open spec fn planned(plan: PlanModel, delivery: DeliveryModel) -> Result<
    PlanModel,
    ErrorModel,
> {
    match delivery.binding.transport {
        Transport::Stdin => if plan.stdin is Some {
            Err(Fault::SecondStdin)
        } else {
            Ok(PlanModel { stdin: Some(delivery.value), ..plan })
        },
        Transport::Env => match delivery.binding.target {
            Some(TargetModel::Text(name)) => if sets(plan, name) {
                Err(Fault::EnvTargetReused { name })
            } else if !valid_utf8(delivery.value) {
                Err(Fault::EnvValueNotText { name, cause: utf8_error_words(delivery.value) })
            } else {
                Ok(
                    PlanModel {
                        variables: plan.variables.push((name, decode_utf8(delivery.value))),
                        ..plan
                    },
                )
            },
            _ => Err(Fault::EnvDeliveryTarget),
        },
        Transport::Fd => match delivery.binding.target {
            None => Err(Fault::FdDeliveryTarget),
            Some(target) => match descriptor(target) {
                Err(fault) => Err(fault),
                Ok(number) => if opens(plan, number) {
                    Err(Fault::FdTargetReused { number })
                } else {
                    Ok(
                        PlanModel {
                            descriptors: plan.descriptors.push((number, delivery.value)),
                            ..plan
                        },
                    )
                },
            },
        },
    }
}

/// The plan for a row of deliveries, one after the other; the first that does not fit is refused.
pub open spec fn plan_of(deliveries: Seq<DeliveryModel>) -> Result<PlanModel, ErrorModel>
    decreases deliveries.len(),
{
    if deliveries.len() == 0 {
        Ok(empty_plan())
    } else {
        match plan_of(deliveries.drop_last()) {
            Err(fault) => Err(fault),
            Ok(plan) => planned(plan, deliveries.last()),
        }
    }
}

proof fn lemma_refusal_stays(deliveries: Seq<DeliveryModel>, count: int)
    requires
        0 <= count <= deliveries.len(),
        plan_of(deliveries.take(count)) is Err,
    ensures
        plan_of(deliveries) == plan_of(deliveries.take(count)),
    decreases deliveries.len(),
{
    if count == deliveries.len() {
        assert(deliveries.take(count) == deliveries);
    } else {
        assert(deliveries.drop_last().take(count) == deliveries.take(count));
        lemma_refusal_stays(deliveries.drop_last(), count);
    }
}

/// Whether a plan sets this variable.
fn sets_variable(plan: &DeliveryPlan, name: &str) -> (r: bool)
    ensures
        r == sets(plan@, name@),
{
    let mut index: usize = 0;
    while index < plan.variables.len()
        invariant
            index <= plan.variables.len(),
            forall|i: int| 0 <= i < index ==> (#[trigger] plan@.variables[i]).0 != name@,
        decreases plan.variables.len() - index,
    {
        if same_text(plan.variables[index].0.as_str(), name) {
            assert(plan@.variables[index as int].0 == name@);
            return true;
        }
        index += 1;
    }
    false
}

/// Whether a plan uses this file descriptor.
fn opens_descriptor(plan: &DeliveryPlan, number: i32) -> (r: bool)
    ensures
        r == opens(plan@, number),
{
    let mut index: usize = 0;
    while index < plan.descriptors.len()
        invariant
            index <= plan.descriptors.len(),
            forall|i: int| 0 <= i < index ==> (#[trigger] plan@.descriptors[i]).0 != number,
        decreases plan.descriptors.len() - index,
    {
        if plan.descriptors[index].0 == number {
            assert(plan@.descriptors[index as int].0 == number);
            return true;
        }
        index += 1;
    }
    false
}

/// Adds one delivery to a plan.
fn plan_delivery(plan: &mut DeliveryPlan, delivery: &Delivery) -> (r: Result<(), Error>)
    ensures
        match r {
            Ok(()) => planned(old(plan)@, delivery@) == success(final(plan)@),
            Err(error) => planned(old(plan)@, delivery@) matches Err(fault) && fault == error@,
        },
{
    let ghost before = plan@;
    match delivery.binding.transport {
        Transport::Stdin => {
            if plan.stdin.is_some() {
                return Err(Fault::SecondStdin);
            }
            plan.stdin = Some(delivery.value.duplicate());
            assert(plan@ =~= (PlanModel { stdin: Some(delivery.value@), ..before }));
            Ok(())
        },
        Transport::Env => match &delivery.binding.target {
            Some(Target::Text(name)) => {
                if sets_variable(plan, name.as_str()) {
                    return Err(Fault::EnvTargetReused { name: name.clone() });
                }
                let mut bytes: Vec<u8> = Vec::new();
                push_bytes(&mut bytes, delivery.value.expose());
                assert(bytes@ == delivery.value@);
                match text_from_utf8(bytes) {
                    Err(cause) => Err(Fault::EnvValueNotText { name: name.clone(), cause }),
                    Ok(text) => {
                        plan.variables.push((name.clone(), text));
                        assert(plan@ =~= (PlanModel {
                            variables: before.variables.push((name@, text@)),
                            ..before
                        }));
                        Ok(())
                    },
                }
            },
            _ => Err(Fault::EnvDeliveryTarget),
        },
        Transport::Fd => match &delivery.binding.target {
            None => Err(Fault::FdDeliveryTarget),
            Some(target) => match target_as_fd(target) {
                Err(error) => Err(error),
                Ok(number) => {
                    if opens_descriptor(plan, number) {
                        return Err(Fault::FdTargetReused { number });
                    }
                    let value = delivery.value.duplicate();
                    plan.descriptors.push((number, value));
                    assert(plan@ =~= (PlanModel {
                        descriptors: before.descriptors.push((number, delivery.value@)),
                        ..before
                    }));
                    Ok(())
                },
            },
        },
    }
}

/// Plans how a command receives the secrets of a run.
pub fn plan_deliveries(deliveries: &Vec<Delivery>) -> (r: Result<DeliveryPlan, Error>)
    ensures
        match r {
            Ok(plan) => plan_of(delivery_models(deliveries@)) == success(plan@),
            Err(error) => plan_of(delivery_models(deliveries@)) matches Err(fault) && fault
                == error@,
        },
{
    let ghost all = delivery_models(deliveries@);
    let mut plan = DeliveryPlan { stdin: None, variables: Vec::new(), descriptors: Vec::new() };
    let mut index: usize = 0;
    assert(plan@ =~= empty_plan());
    assert(all.take(0) == Seq::<DeliveryModel>::empty());
    while index < deliveries.len()
        invariant
            index <= deliveries.len(),
            all == delivery_models(deliveries@),
            plan_of(all.take(index as int)) == success(plan@),
        decreases deliveries.len() - index,
    {
        assert(all.take(index + 1).drop_last() == all.take(index as int));
        assert(all.take(index + 1).last() == deliveries@[index as int]@);
        match plan_delivery(&mut plan, &deliveries[index]) {
            Err(error) => {
                proof {
                    lemma_refusal_stays(all, index + 1);
                }
                return Err(error);
            },
            Ok(()) => {},
        }
        index += 1;
    }
    assert(all.take(index as int) == all);
    Ok(plan)
}

/// The lowest number from which the pipes of a run are numbered: above every file descriptor that
/// the command is promised, and never below 100.
pub open spec fn pipe_base(numbers: Seq<i32>) -> int
    decreases numbers.len(),
{
    if numbers.len() == 0 {
        100
    } else {
        let before = pipe_base(numbers.drop_last());
        let above = if numbers.last() == i32::MAX {
            i32::MAX as int
        } else {
            numbers.last() + 1
        };
        if above > before {
            above
        } else {
            before
        }
    }
}

/// The numbers of the file descriptors that a plan uses.
pub open spec fn descriptor_numbers(plan: PlanModel) -> Seq<i32> {
    Seq::new(plan.descriptors.len(), |i: int| plan.descriptors[i].0)
}

/// The lowest number from which the pipes of a run are numbered.
pub fn source_base(plan: &DeliveryPlan) -> (r: i32)
    ensures
        r == pipe_base(descriptor_numbers(plan@)),
{
    let ghost numbers = descriptor_numbers(plan@);
    let mut base: i32 = 100;
    let mut index: usize = 0;
    while index < plan.descriptors.len()
        invariant
            index <= plan.descriptors.len(),
            numbers == descriptor_numbers(plan@),
            base == pipe_base(numbers.take(index as int)),
        decreases plan.descriptors.len() - index,
    {
        let number: i32 = plan.descriptors[index].0;
        let above: i32 = if number == i32::MAX {
            i32::MAX
        } else {
            number + 1
        };
        assert(numbers.take(index + 1).drop_last() == numbers.take(index as int));
        if above > base {
            base = above;
        }
        index += 1;
    }
    assert(numbers.take(index as int) == numbers);
    base
}

/// The pipes of a run are numbered above every file descriptor that the command is promised, so
/// that none of them is overwritten before it is in its place. The one exception is the highest
/// number there is, which nothing is above.
pub proof fn law_pipes_are_out_of_the_way(numbers: Seq<i32>)
    ensures
        100 <= pipe_base(numbers) <= i32::MAX,
        forall|i: int|
            0 <= i < numbers.len() && numbers[i] != i32::MAX ==> (#[trigger] numbers[i])
                < pipe_base(numbers),
    decreases numbers.len(),
{
    if numbers.len() > 0 {
        let less = numbers.drop_last();
        law_pipes_are_out_of_the_way(less);
        assert forall|i: int| 0 <= i < numbers.len() && numbers[i] != i32::MAX implies (
        #[trigger] numbers[i]) < pipe_base(numbers) by {
            if i < less.len() {
                assert(numbers[i] == less[i]);
            }
        }
    }
}

/// Pairs the file descriptors that a command is promised with the pipes that they are read from.
pub fn descriptor_mappings(plan: &DeliveryPlan, sources: &Vec<i32>) -> (r: Vec<(i32, i32)>)
    requires
        sources@.len() == plan@.descriptors.len(),
    ensures
        r@ == Seq::new(
            plan@.descriptors.len(),
            |i: int| (plan@.descriptors[i].0, sources@[i]),
        ),
{
    let mut out: Vec<(i32, i32)> = Vec::new();
    let mut index: usize = 0;
    while index < plan.descriptors.len()
        invariant
            sources@.len() == plan@.descriptors.len(),
            index <= plan.descriptors.len(),
            out.len() == index,
            forall|i: int|
                0 <= i < index ==> #[trigger] out@[i] == (plan@.descriptors[i].0, sources@[i]),
        decreases plan.descriptors.len() - index,
    {
        out.push((plan.descriptors[index].0, sources[index]));
        index += 1;
    }
    assert(out@ =~= Seq::new(
        plan@.descriptors.len(),
        |i: int| (plan@.descriptors[i].0, sources@[i]),
    ));
    out
}

/// A table of open file descriptors after each source was duplicated to its target, in order.
pub open spec fn duplicated<T>(table: Map<i32, T>, mappings: Seq<(i32, i32)>) -> Map<i32, T>
    decreases mappings.len(),
{
    if mappings.len() == 0 {
        table
    } else {
        let before = duplicated(table, mappings.drop_last());
        before.insert(mappings.last().0, before[mappings.last().1])
    }
}

/// A table of open file descriptors after the sources were closed.
pub open spec fn sources_closed<T>(table: Map<i32, T>, mappings: Seq<(i32, i32)>) -> Map<i32, T>
    decreases mappings.len(),
{
    if mappings.len() == 0 {
        table
    } else {
        sources_closed(table, mappings.drop_last()).remove(mappings.last().1)
    }
}

/// The targets of some mappings.
pub open spec fn mapping_targets(mappings: Seq<(i32, i32)>) -> Seq<i32> {
    Seq::new(mappings.len(), |i: int| mappings[i].0)
}

proof fn lemma_duplicated_elsewhere<T>(table: Map<i32, T>, mappings: Seq<(i32, i32)>, number: i32)
    requires
        forall|i: int| 0 <= i < mappings.len() ==> (#[trigger] mappings[i]).0 != number,
    ensures
        duplicated(table, mappings).dom().contains(number) == table.dom().contains(number),
        duplicated(table, mappings)[number] == table[number],
    decreases mappings.len(),
{
    if mappings.len() > 0 {
        let less = mappings.drop_last();
        assert(mappings[mappings.len() - 1].0 != number);
        assert forall|i: int| 0 <= i < less.len() implies (#[trigger] less[i]).0 != number by {
            assert(less[i] == mappings[i]);
        }
        lemma_duplicated_elsewhere(table, less, number);
    }
}

proof fn lemma_closed_elsewhere<T>(table: Map<i32, T>, mappings: Seq<(i32, i32)>, number: i32)
    requires
        forall|i: int| 0 <= i < mappings.len() ==> (#[trigger] mappings[i]).1 != number,
    ensures
        sources_closed(table, mappings).dom().contains(number) == table.dom().contains(number),
        table.dom().contains(number) ==> sources_closed(table, mappings)[number] == table[number],
    decreases mappings.len(),
{
    if mappings.len() > 0 {
        let less = mappings.drop_last();
        assert(mappings[mappings.len() - 1].1 != number);
        assert forall|i: int| 0 <= i < less.len() implies (#[trigger] less[i]).1 != number by {
            assert(less[i] == mappings[i]);
        }
        lemma_closed_elsewhere(table, less, number);
    }
}

proof fn lemma_duplicated_at<T>(table: Map<i32, T>, mappings: Seq<(i32, i32)>, index: int)
    requires
        0 <= index < mappings.len(),
        forall|i: int, j: int|
            0 <= i < j < mappings.len() ==> (#[trigger] mappings[i]).0 != (
            #[trigger] mappings[j]).0,
        forall|i: int, j: int|
            0 <= i < mappings.len() && 0 <= j < mappings.len() ==> (#[trigger] mappings[i]).0 != (
            #[trigger] mappings[j]).1,
    ensures
        duplicated(table, mappings).dom().contains(mappings[index].0),
        duplicated(table, mappings)[mappings[index].0] == table[mappings[index].1],
    decreases mappings.len(),
{
    let less = mappings.drop_last();
    let last = mappings.len() - 1;
    assert forall|i: int| 0 <= i < less.len() implies less[i] == mappings[i] by {}
    if index < last {
        lemma_duplicated_at(table, less, index);
        assert(mappings[index].0 != mappings[last].0);
    } else {
        assert forall|i: int| 0 <= i < less.len() implies (#[trigger] less[i]).0
            != mappings[last].1 by {
            assert(mappings[i].0 != mappings[last].1);
        }
        lemma_duplicated_elsewhere(table, less, mappings[last].1);
    }
}

/// A command finds each secret on the file descriptor that it was promised. Where every pipe is
/// numbered from the base on and every target is used once, duplicating the pipes to the targets
/// one after the other and then closing the pipes leaves at each target what its own pipe was; no
/// pipe is overwritten on the way. (The base is above every target but the highest number there
/// is.)
pub proof fn law_descriptors_reach_the_command<T>(
    table: Map<i32, T>,
    mappings: Seq<(i32, i32)>,
    index: int,
)
    requires
        0 <= index < mappings.len(),
        forall|i: int, j: int|
            0 <= i < j < mappings.len() ==> (#[trigger] mappings[i]).0 != (
            #[trigger] mappings[j]).0,
        forall|i: int|
            0 <= i < mappings.len() ==> (#[trigger] mappings[i]).1 >= pipe_base(
                mapping_targets(mappings),
            ),
        forall|i: int| 0 <= i < mappings.len() ==> (#[trigger] mappings[i]).0 != i32::MAX,
    ensures
        ({
            let after = sources_closed(duplicated(table, mappings), mappings);
            &&& after.dom().contains(mappings[index].0)
            &&& after[mappings[index].0] == table[mappings[index].1]
        }),
{
    let targets = mapping_targets(mappings);
    law_pipes_are_out_of_the_way(targets);
    assert forall|i: int, j: int| 0 <= i < mappings.len() && 0 <= j < mappings.len() implies (
    #[trigger] mappings[i]).0 != (#[trigger] mappings[j]).1 by {
        assert(targets[i] == mappings[i].0);
        assert(targets[i] < pipe_base(targets));
    }
    lemma_duplicated_at(table, mappings, index);
    lemma_closed_elsewhere(duplicated(table, mappings), mappings, mappings[index].0);
}

/// Every variable and every file descriptor of a plan is used once.
pub open spec fn targets_distinct(plan: PlanModel) -> bool {
    &&& forall|i: int, j: int|
        0 <= i < j < plan.variables.len() ==> (#[trigger] plan.variables[i]).0 != (
        #[trigger] plan.variables[j]).0
    &&& forall|i: int, j: int|
        0 <= i < j < plan.descriptors.len() ==> (#[trigger] plan.descriptors[i]).0 != (
        #[trigger] plan.descriptors[j]).0
}

/// No plan hands two secrets to one variable or to one file descriptor, and it hands over as many
/// secrets as were to be delivered: none is lost and none comes twice.
pub proof fn law_plans_have_distinct_targets(deliveries: Seq<DeliveryModel>)
    ensures
        plan_of(deliveries) matches Ok(plan) ==> {
            &&& targets_distinct(plan)
            &&& deliveries.len() == plan.variables.len() + plan.descriptors.len() + (
            if plan.stdin is Some {
                1int
            } else {
                0int
            })
        },
    decreases deliveries.len(),
{
    if deliveries.len() > 0 {
        law_plans_have_distinct_targets(deliveries.drop_last());
        if let Ok(before) = plan_of(deliveries.drop_last()) {
            if let Ok(plan) = planned(before, deliveries.last()) {
                assert forall|i: int, j: int| 0 <= i < j < plan.variables.len() implies (
                #[trigger] plan.variables[i]).0 != (#[trigger] plan.variables[j]).0 by {
                    assert(plan.variables[i] == before.variables[i]);
                    if j < before.variables.len() {
                        assert(plan.variables[j] == before.variables[j]);
                    }
                }
                assert forall|i: int, j: int| 0 <= i < j < plan.descriptors.len() implies (
                #[trigger] plan.descriptors[i]).0 != (#[trigger] plan.descriptors[j]).0 by {
                    assert(plan.descriptors[i] == before.descriptors[i]);
                    if j < before.descriptors.len() {
                        assert(plan.descriptors[j] == before.descriptors[j]);
                    }
                }
            }
        }
    }
}

/// What a plan hands over, and where.
pub open spec fn hands_over(plan: PlanModel, delivery: DeliveryModel) -> bool {
    match delivery.binding.transport {
        Transport::Stdin => plan.stdin == Some(delivery.value),
        Transport::Env => match delivery.binding.target {
            Some(TargetModel::Text(name)) => {
                &&& valid_utf8(delivery.value)
                &&& plan.variables.contains((name, decode_utf8(delivery.value)))
            },
            _ => false,
        },
        Transport::Fd => match delivery.binding.target {
            Some(target) => {
                &&& descriptor(target) is Ok
                &&& plan.descriptors.contains((descriptor(target)->Ok_0, delivery.value))
            },
            None => false,
        },
    }
}

/// A plan hands over every secret that was to be delivered, unchanged, where its binding says.
pub proof fn law_plans_hand_over_every_delivery(deliveries: Seq<DeliveryModel>, index: int)
    requires
        0 <= index < deliveries.len(),
        plan_of(deliveries) is Ok,
    ensures
        hands_over(plan_of(deliveries)->Ok_0, deliveries[index]),
    decreases deliveries.len(),
{
    let before = plan_of(deliveries.drop_last())->Ok_0;
    let plan = plan_of(deliveries)->Ok_0;
    let last = deliveries.last();
    assert(planned(before, last) == success(plan));
    if index < deliveries.len() - 1 {
        law_plans_hand_over_every_delivery(deliveries.drop_last(), index);
        let delivery = deliveries[index];
        assert(deliveries.drop_last()[index] == delivery);
        assert forall|entry: (Seq<char>, Seq<char>)| before.variables.contains(
            entry,
        ) implies plan.variables.contains(entry) by {
            let i = choose|i: int| 0 <= i < before.variables.len() && before.variables[i] == entry;
            assert(plan.variables[i] == entry);
        }
        assert forall|entry: (i32, Seq<u8>)| before.descriptors.contains(
            entry,
        ) implies plan.descriptors.contains(entry) by {
            let i = choose|i: int|
                0 <= i < before.descriptors.len() && before.descriptors[i] == entry;
            assert(plan.descriptors[i] == entry);
        }
    } else {
        assert(deliveries[index] == last);
        if last.binding.transport == Transport::Env {
            assert(plan.variables.last() == plan.variables[plan.variables.len() - 1]);
        }
        if last.binding.transport == Transport::Fd {
            assert(plan.descriptors.last() == plan.descriptors[plan.descriptors.len() - 1]);
        }
    }
}

/// The faults for which a plan can be refused whose bindings are all valid: two secrets with one
/// target, or a value for a variable that is no text.
pub open spec fn conflict(fault: ErrorModel) -> bool {
    match fault {
        Fault::SecondStdin => true,
        Fault::EnvTargetReused { .. } => true,
        Fault::EnvValueNotText { .. } => true,
        Fault::FdTargetReused { .. } => true,
        _ => false,
    }
}

/// Whether a binding was found valid, under some names.
pub open spec fn binding_valid(binding: BindingModel) -> bool {
    binding_check(binding, Seq::empty(), Seq::empty()) is Ok
}

/// Deliveries whose bindings are valid are refused only for conflicts among them or for a value
/// that is no text, and no plan for them touches a standard stream by its number.
pub proof fn law_valid_bindings_fail_only_in_conflicts(deliveries: Seq<DeliveryModel>)
    requires
        forall|i: int|
            0 <= i < deliveries.len() ==> binding_valid((#[trigger] deliveries[i]).binding),
    ensures
        match plan_of(deliveries) {
            Ok(plan) => forall|i: int|
                0 <= i < plan.descriptors.len() ==> (#[trigger] plan.descriptors[i]).0 >= 3,
            Err(fault) => conflict(fault),
        },
    decreases deliveries.len(),
{
    if deliveries.len() > 0 {
        let less = deliveries.drop_last();
        assert forall|i: int| 0 <= i < less.len() implies binding_valid(
            (#[trigger] less[i]).binding,
        ) by {
            assert(less[i] == deliveries[i]);
        }
        law_valid_bindings_fail_only_in_conflicts(less);
        assert(binding_valid(deliveries[deliveries.len() - 1].binding));
        if let Ok(before) = plan_of(less) {
            if let Ok(plan) = planned(before, deliveries.last()) {
                assert forall|i: int| 0 <= i < plan.descriptors.len() implies (
                #[trigger] plan.descriptors[i]).0 >= 3 by {
                    if i < before.descriptors.len() {
                        assert(plan.descriptors[i] == before.descriptors[i]);
                    }
                }
            }
        }
    }
}

/// The number that a target stands for, if it stands for one.
pub open spec fn target_number(target: TargetModel) -> Option<i64> {
    match target {
        TargetModel::Number(number) => Some(number),
        TargetModel::Text(text) => match spelled_number(text) {
            Ok(number) => Some(number),
            Err(_) => None,
        },
    }
}

/// Whether a delivery goes to this variable.
pub open spec fn goes_to_variable(delivery: DeliveryModel, name: Seq<char>) -> bool {
    delivery.binding.transport == Transport::Env && delivery.binding.target == Some(
        TargetModel::Text(name),
    )
}

/// Whether a delivery goes to the file descriptor of this number.
pub open spec fn goes_to_descriptor(delivery: DeliveryModel, number: int) -> bool {
    &&& delivery.binding.transport == Transport::Fd
    &&& delivery.binding.target matches Some(target)
    &&& target_number(target) matches Some(n)
    &&& n == number
}

proof fn lemma_planned_places(deliveries: Seq<DeliveryModel>)
    requires
        plan_of(deliveries) is Ok,
    ensures
        ({
            let plan = plan_of(deliveries)->Ok_0;
            &&& plan.stdin is Some <==> exists|k: int|
                0 <= k < deliveries.len() && (#[trigger] deliveries[k]).binding.transport
                    == Transport::Stdin
            &&& forall|name: Seq<char>| #[trigger]
                sets(plan, name) <==> exists|k: int|
                    0 <= k < deliveries.len() && goes_to_variable(#[trigger] deliveries[k], name)
            &&& forall|number: i32| #[trigger]
                opens(plan, number) <==> exists|k: int|
                    0 <= k < deliveries.len() && goes_to_descriptor(
                        #[trigger] deliveries[k],
                        number as int,
                    )
        }),
    decreases deliveries.len(),
{
    let plan = plan_of(deliveries)->Ok_0;
    if deliveries.len() > 0 {
        let less = deliveries.drop_last();
        let last = deliveries.last();
        let before = plan_of(less)->Ok_0;
        lemma_planned_places(less);
        assert(deliveries[deliveries.len() - 1] == last);
        assert forall|k: int| 0 <= k < less.len() implies less[k] == deliveries[k] by {}
        if before.stdin is Some {
            let k = choose|k: int|
                0 <= k < less.len() && (#[trigger] less[k]).binding.transport == Transport::Stdin;
            assert(deliveries[k].binding.transport == Transport::Stdin);
        }
        assert forall|name: Seq<char>| #[trigger] sets(plan, name) <==> exists|k: int|
            0 <= k < deliveries.len() && goes_to_variable(#[trigger] deliveries[k], name) by {
            if sets(before, name) {
                let i = choose|i: int|
                    0 <= i < before.variables.len() && (#[trigger] before.variables[i]).0 == name;
                assert(plan.variables[i].0 == name);
                let k = choose|k: int|
                    0 <= k < less.len() && goes_to_variable(#[trigger] less[k], name);
                assert(goes_to_variable(deliveries[k], name));
            }
            if goes_to_variable(last, name) {
                assert(plan.variables[before.variables.len() as int].0 == name);
            }
            if sets(plan, name) && !sets(before, name) {
                let i = choose|i: int|
                    0 <= i < plan.variables.len() && (#[trigger] plan.variables[i]).0 == name;
                if i < before.variables.len() {
                    assert(before.variables[i].0 == name);
                }
                assert(goes_to_variable(deliveries[deliveries.len() - 1], name));
            }
        }
        assert forall|number: i32| #[trigger] opens(plan, number) <==> exists|k: int|
            0 <= k < deliveries.len() && goes_to_descriptor(
                #[trigger] deliveries[k],
                number as int,
            ) by {
            if opens(before, number) {
                let i = choose|i: int|
                    0 <= i < before.descriptors.len() && (#[trigger] before.descriptors[i]).0
                        == number;
                assert(plan.descriptors[i].0 == number);
                let k = choose|k: int|
                    0 <= k < less.len() && goes_to_descriptor(#[trigger] less[k], number as int);
                assert(goes_to_descriptor(deliveries[k], number as int));
            }
            if goes_to_descriptor(last, number as int) {
                assert(plan.descriptors[before.descriptors.len() as int].0 == number);
            }
            if opens(plan, number) && !opens(before, number) {
                let i = choose|i: int|
                    0 <= i < plan.descriptors.len() && (#[trigger] plan.descriptors[i]).0 == number;
                if i < before.descriptors.len() {
                    assert(before.descriptors[i].0 == number);
                }
                assert(goes_to_descriptor(deliveries[deliveries.len() - 1], number as int));
            }
        }
    } else {
        assert forall|name: Seq<char>| !(#[trigger] sets(plan, name)) by {}
        assert forall|number: i32| !(#[trigger] opens(plan, number)) by {}
    }
}

/// Whether a delivery can be carried out by itself: a value for a variable is valid UTF-8 and goes
/// to a name, and a value for a file descriptor goes to a number of 32 bits.
pub open spec fn deliverable(delivery: DeliveryModel) -> bool {
    match delivery.binding.transport {
        Transport::Stdin => true,
        Transport::Env => {
            &&& delivery.binding.target matches Some(TargetModel::Text(_))
            &&& valid_utf8(delivery.value)
        },
        Transport::Fd => {
            &&& delivery.binding.target matches Some(target)
            &&& target_number(target) matches Some(number)
            &&& -0x8000_0000 <= number <= 0x7fff_ffff
        },
    }
}

/// Whether two deliveries go to one place: both to standard input, to one variable or to one file
/// descriptor.
pub open spec fn same_place(left: DeliveryModel, right: DeliveryModel) -> bool {
    ||| left.binding.transport == Transport::Stdin && right.binding.transport == Transport::Stdin
    ||| exists|name: Seq<char>| #[trigger]
        goes_to_variable(left, name) && goes_to_variable(right, name)
    ||| exists|number: int| #[trigger]
        goes_to_descriptor(left, number) && goes_to_descriptor(right, number)
}

/// Deliveries can be planned exactly if each of them can be carried out by itself and no two of
/// them go to one place.
pub proof fn law_plans_succeed_without_conflicts(deliveries: Seq<DeliveryModel>)
    ensures
        plan_of(deliveries) is Ok <==> {
            &&& forall|k: int| 0 <= k < deliveries.len() ==> deliverable(#[trigger] deliveries[k])
            &&& forall|k: int, l: int|
                0 <= k < l < deliveries.len() ==> !same_place(
                    #[trigger] deliveries[k],
                    #[trigger] deliveries[l],
                )
        },
    decreases deliveries.len(),
{
    if deliveries.len() > 0 {
        let less = deliveries.drop_last();
        let last = deliveries.last();
        let end = deliveries.len() - 1;
        law_plans_succeed_without_conflicts(less);
        assert(deliveries[end] == last);
        assert forall|k: int| 0 <= k < less.len() implies less[k] == deliveries[k] by {}
        if plan_of(less) is Ok {
            let before = plan_of(less)->Ok_0;
            lemma_planned_places(less);
            if plan_of(deliveries) is Ok {
                assert(deliverable(last));
                assert forall|k: int| 0 <= k < deliveries.len() implies deliverable(
                    #[trigger] deliveries[k],
                ) by {
                    if k < end {
                        assert(deliverable(less[k]));
                    }
                }
                assert forall|k: int, l: int| 0 <= k < l < deliveries.len() implies !same_place(
                    #[trigger] deliveries[k],
                    #[trigger] deliveries[l],
                ) by {
                    if l < end {
                        assert(!same_place(less[k], less[l]));
                    } else if same_place(deliveries[k], last) {
                        assert(less[k] == deliveries[k]);
                        if last.binding.transport == Transport::Env {
                            let name = choose|name: Seq<char>| #[trigger]
                                goes_to_variable(less[k], name) && goes_to_variable(last, name);
                            assert(sets(before, name));
                        } else if last.binding.transport == Transport::Fd {
                            let number = choose|number: int| #[trigger]
                                goes_to_descriptor(less[k], number) && goes_to_descriptor(
                                    last,
                                    number,
                                );
                            assert(opens(before, number as i32));
                        }
                    }
                }
            } else {
                if deliverable(last) {
                    if last.binding.transport == Transport::Stdin {
                        let k = choose|k: int|
                            0 <= k < less.len() && (#[trigger] less[k]).binding.transport
                                == Transport::Stdin;
                        assert(same_place(deliveries[k], deliveries[end]));
                    } else if last.binding.transport == Transport::Env {
                        let name = last.binding.target->Some_0->Text_0;
                        assert(sets(before, name));
                        let k = choose|k: int|
                            0 <= k < less.len() && goes_to_variable(#[trigger] less[k], name);
                        assert(goes_to_variable(deliveries[end], name));
                        assert(goes_to_variable(deliveries[k], name));
                        assert(same_place(deliveries[k], deliveries[end]));
                    } else {
                        let number = target_number(last.binding.target->Some_0)->Some_0;
                        assert(opens(before, number as i32));
                        let k = choose|k: int|
                            0 <= k < less.len() && goes_to_descriptor(
                                #[trigger] less[k],
                                number as int,
                            );
                        assert(goes_to_descriptor(deliveries[end], number as int));
                        assert(goes_to_descriptor(deliveries[k], number as int));
                        assert(same_place(deliveries[k], deliveries[end]));
                    }
                }
            }
        } else {
            if forall|k: int| 0 <= k < deliveries.len() ==> deliverable(#[trigger] deliveries[k]) {
                assert forall|k: int| 0 <= k < less.len() implies deliverable(
                    #[trigger] less[k],
                ) by {
                    assert(deliverable(deliveries[k]));
                }
                let (k, l) = choose|k: int, l: int|
                    0 <= k < l < less.len() && same_place(#[trigger] less[k], #[trigger] less[l]);
                assert(same_place(deliveries[k], deliveries[l]));
            }
        }
    }
}

/// A command finds each value that was to be delivered to it, byte for byte: on standard input, as
/// the text whose UTF-8 bytes it is in the variable of the name that was asked for, or on the file
/// descriptor of the number that was asked for.
pub proof fn law_values_arrive_unchanged(deliveries: Seq<DeliveryModel>, index: int)
    requires
        0 <= index < deliveries.len(),
        plan_of(deliveries) is Ok,
    ensures
        ({
            let plan = plan_of(deliveries)->Ok_0;
            let delivery = deliveries[index];
            match delivery.binding.transport {
                Transport::Stdin => plan.stdin == Some(delivery.value),
                Transport::Env => exists|name: Seq<char>, text: Seq<char>|
                    delivery.binding.target == Some(TargetModel::Text(name)) && encode_utf8(text)
                        == delivery.value && #[trigger] plan.variables.contains((name, text)),
                Transport::Fd => exists|number: i32|
                    goes_to_descriptor(delivery, number as int)
                        && #[trigger] plan.descriptors.contains((number, delivery.value)),
            }
        }),
{
    law_plans_hand_over_every_delivery(deliveries, index);
    let plan = plan_of(deliveries)->Ok_0;
    let delivery = deliveries[index];
    match delivery.binding.transport {
        Transport::Stdin => {},
        Transport::Env => {
            let name = delivery.binding.target->Some_0->Text_0;
            let text = decode_utf8(delivery.value);
            vstd::utf8::decode_utf8_encode_utf8(delivery.value);
            assert(plan.variables.contains((name, text)));
        },
        Transport::Fd => {
            let number = descriptor(delivery.binding.target->Some_0)->Ok_0;
            assert(goes_to_descriptor(delivery, number as int));
            assert(plan.descriptors.contains((number, delivery.value)));
        },
    }
}

/// A command finds nothing but what was to be delivered to it: whatever a plan holds is the value
/// of some delivery that goes there.
pub proof fn law_nothing_else_arrives(deliveries: Seq<DeliveryModel>)
    requires
        plan_of(deliveries) is Ok,
    ensures
        ({
            let plan = plan_of(deliveries)->Ok_0;
            &&& plan.stdin matches Some(value) ==> exists|k: int|
                0 <= k < deliveries.len() && (#[trigger] deliveries[k]).binding.transport
                    == Transport::Stdin && deliveries[k].value == value
            &&& forall|i: int|
                0 <= i < plan.variables.len() ==> exists|k: int|
                    0 <= k < deliveries.len() && goes_to_variable(
                        #[trigger] deliveries[k],
                        (#[trigger] plan.variables[i]).0,
                    ) && deliveries[k].value == encode_utf8(plan.variables[i].1)
            &&& forall|i: int|
                0 <= i < plan.descriptors.len() ==> exists|k: int|
                    0 <= k < deliveries.len() && goes_to_descriptor(
                        #[trigger] deliveries[k],
                        (#[trigger] plan.descriptors[i]).0 as int,
                    ) && deliveries[k].value == plan.descriptors[i].1
            &&& forall|i: int, j: int|
                0 <= i < j < plan.variables.len() ==> (#[trigger] plan.variables[i]).0 != (
                #[trigger] plan.variables[j]).0
            &&& forall|i: int, j: int|
                0 <= i < j < plan.descriptors.len() ==> (#[trigger] plan.descriptors[i]).0 != (
                #[trigger] plan.descriptors[j]).0
        }),
    decreases deliveries.len(),
{
    law_plans_have_distinct_targets(deliveries);
    let plan = plan_of(deliveries)->Ok_0;
    if deliveries.len() > 0 {
        let less = deliveries.drop_last();
        let last = deliveries.last();
        let end = deliveries.len() - 1;
        let before = plan_of(less)->Ok_0;
        law_nothing_else_arrives(less);
        assert(deliveries[end] == last);
        assert forall|k: int| 0 <= k < less.len() implies less[k] == deliveries[k] by {}
        if let Some(value) = before.stdin {
            let k = choose|k: int|
                0 <= k < less.len() && (#[trigger] less[k]).binding.transport == Transport::Stdin
                    && less[k].value == value;
            assert(deliveries[k].value == value);
        }
        assert forall|i: int| 0 <= i < plan.variables.len() implies exists|k: int|
            0 <= k < deliveries.len() && goes_to_variable(
                #[trigger] deliveries[k],
                (#[trigger] plan.variables[i]).0,
            ) && deliveries[k].value == encode_utf8(plan.variables[i].1) by {
            if i < before.variables.len() {
                assert(plan.variables[i] == before.variables[i]);
                let k = choose|k: int|
                    0 <= k < less.len() && goes_to_variable(
                        #[trigger] less[k],
                        before.variables[i].0,
                    ) && less[k].value == encode_utf8(before.variables[i].1);
                assert(goes_to_variable(deliveries[k], plan.variables[i].0));
            } else {
                vstd::utf8::decode_utf8_encode_utf8(last.value);
                assert(goes_to_variable(deliveries[end], plan.variables[i].0));
            }
        }
        assert forall|i: int| 0 <= i < plan.descriptors.len() implies exists|k: int|
            0 <= k < deliveries.len() && goes_to_descriptor(
                #[trigger] deliveries[k],
                (#[trigger] plan.descriptors[i]).0 as int,
            ) && deliveries[k].value == plan.descriptors[i].1 by {
            if i < before.descriptors.len() {
                assert(plan.descriptors[i] == before.descriptors[i]);
                let k = choose|k: int|
                    0 <= k < less.len() && goes_to_descriptor(
                        #[trigger] less[k],
                        before.descriptors[i].0 as int,
                    ) && less[k].value == before.descriptors[i].1;
                assert(goes_to_descriptor(deliveries[k], plan.descriptors[i].0 as int));
            } else {
                assert(goes_to_descriptor(deliveries[end], plan.descriptors[i].0 as int));
            }
        }
    }
}

/// What a delivery is refused for that cannot be added to a plan.
pub proof fn law_refused_deliveries(plan: PlanModel, delivery: DeliveryModel)
    ensures
        ({
            let answer = planned(plan, delivery);
            let target = delivery.binding.target;
            &&& delivery.binding.transport == Transport::Stdin && plan.stdin is Some ==> answer
                == Err::<PlanModel, ErrorModel>(Fault::SecondStdin)
            &&& delivery.binding.transport == Transport::Env ==> match target {
                Some(TargetModel::Text(name)) => {
                    let taken = exists|i: int|
                        0 <= i < plan.variables.len() && (#[trigger] plan.variables[i]).0 == name;
                    &&& taken ==> answer == Err::<PlanModel, ErrorModel>(
                        Fault::EnvTargetReused { name },
                    )
                    &&& !taken && !valid_utf8(delivery.value) ==> answer == Err::<
                        PlanModel,
                        ErrorModel,
                    >(Fault::EnvValueNotText { name, cause: utf8_error_words(delivery.value) })
                },
                _ => answer == Err::<PlanModel, ErrorModel>(Fault::EnvDeliveryTarget),
            }
            &&& delivery.binding.transport == Transport::Fd && target is None ==> answer == Err::<
                PlanModel,
                ErrorModel,
            >(Fault::FdDeliveryTarget)
            &&& delivery.binding.transport == Transport::Fd && target is Some && descriptor(
                target->Some_0,
            ) is Err ==> answer == Err::<PlanModel, ErrorModel>(descriptor(target->Some_0)->Err_0)
            &&& forall|number: i32|
                delivery.binding.transport == Transport::Fd && target is Some && descriptor(
                    target->Some_0,
                ) == success(number) && #[trigger] opens(plan, number) ==> answer == Err::<
                    PlanModel,
                    ErrorModel,
                >(Fault::FdTargetReused { number })
        }),
{
}

/// The pipes of a run are numbered from 100 on, or from the number after the highest file
/// descriptor that the command is promised where that is higher, and no higher than needed.
pub proof fn law_pipes_begin_as_low_as_can_be(numbers: Seq<i32>)
    ensures
        pipe_base(numbers) == 100 || exists|i: int|
            0 <= i < numbers.len() && (pipe_base(numbers) == #[trigger] numbers[i] + 1 || (
            numbers[i] == i32::MAX && pipe_base(numbers) == i32::MAX)),
    decreases numbers.len(),
{
    if numbers.len() > 0 {
        let less = numbers.drop_last();
        law_pipes_begin_as_low_as_can_be(less);
        if pipe_base(numbers) == pipe_base(less) && pipe_base(less) != 100 {
            let i = choose|i: int|
                0 <= i < less.len() && (pipe_base(less) == #[trigger] less[i] + 1 || (less[i]
                    == i32::MAX && pipe_base(less) == i32::MAX));
            assert(numbers[i] == less[i]);
        } else if pipe_base(numbers) != 100 {
            assert(numbers[numbers.len() - 1] == numbers.last());
        }
    }
}

/// What a plan says is what it holds.
pub proof fn law_plans_say_what_they_hold(plan: DeliveryPlan)
    ensures
        plan.stdin is None ==> plan@.stdin is None,
        plan.stdin matches Some(value) ==> plan@.stdin == Some(value@),
        plan@.variables.len() == plan.variables@.len(),
        forall|i: int|
            0 <= i < plan.variables@.len() ==> #[trigger] plan@.variables[i] == (
                plan.variables@[i].0@,
                plan.variables@[i].1@,
            ),
        plan@.descriptors.len() == plan.descriptors@.len(),
        forall|i: int|
            0 <= i < plan.descriptors@.len() ==> #[trigger] plan@.descriptors[i] == (
                plan.descriptors@[i].0,
                plan.descriptors@[i].1@,
            ),
        descriptor_numbers(plan@).len() == plan.descriptors@.len(),
        forall|i: int|
            0 <= i < plan.descriptors@.len() ==> #[trigger] descriptor_numbers(plan@)[i]
                == plan.descriptors@[i].0,
{
}

/// Deliveries are planned one after the other: nothing gives a plan without anything, one more is
/// added to the plan of those before it, and the first that is refused is what all are refused for.
pub proof fn law_deliveries_are_planned_one_by_one(
    deliveries: Seq<DeliveryModel>,
    delivery: DeliveryModel,
)
    ensures
        plan_of(Seq::empty()) matches Ok(plan) && plan.stdin is None && plan.variables.len() == 0
            && plan.descriptors.len() == 0,
        plan_of(deliveries) matches Ok(plan) ==> plan_of(deliveries.push(delivery)) == planned(
            plan,
            delivery,
        ),
        plan_of(deliveries) is Err ==> plan_of(deliveries.push(delivery)) == plan_of(deliveries),
{
    assert(deliveries.push(delivery).drop_last() =~= deliveries);
}

} // verus!
