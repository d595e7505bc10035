//! The editable properties of a node: numbers within bounds, a choice from a
//! list, and a list of paths with a current entry.

use std::path::PathBuf;
use vstd::prelude::*;

verus! {

/// `std::path::PathBuf`, carried as an opaque value.
#[verifier::external_type_specification]
#[verifier::external_body]
pub struct ExPathBuf(std::path::PathBuf);

/// A number with its name, its bounds and the step of its control.
pub struct NumberData<T> {
    name: String,
    min: T,
    max: T,
    step: T,
    value: T,
}

/// The mathematical model of a [`NumberData`].
pub struct NumberView<T> {
    pub name: Seq<char>,
    pub min: T,
    pub max: T,
    pub step: T,
    pub value: T,
}

impl<T> View for NumberData<T> {
    type V = NumberView<T>;

    closed spec fn view(&self) -> NumberView<T> {
        NumberView {
            name: self.name@,
            min: self.min,
            max: self.max,
            step: self.step,
            value: self.value,
        }
    }
}

impl<T> NumberData<T> {
    pub fn name(&self) -> (name: &String)
        ensures
            name@ == self@.name,
    {
        &self.name
    }

    pub fn min(&self) -> (min: &T)
        ensures
            *min == self@.min,
    {
        &self.min
    }

    pub fn max(&self) -> (max: &T)
        ensures
            *max == self@.max,
    {
        &self.max
    }

    pub fn step(&self) -> (step: &T)
        ensures
            *step == self@.step,
    {
        &self.step
    }

    /// The value, to read and to write. Nothing but the value changes.
    pub fn value(&mut self) -> (value: &mut T)
        ensures
            *value == old(self)@.value,
            final(self)@ == (NumberView { value: *final(value), ..old(self)@ }),
    {
        &mut self.value
    }
}

/// A choice from a list of names.
pub struct ChoiceData {
    name: String,
    choices: Vec<String>,
    index: usize,
}

/// The mathematical model of a [`ChoiceData`].
pub struct ChoiceView {
    pub name: Seq<char>,
    pub choices: Seq<String>,
    pub index: usize,
}

impl View for ChoiceData {
    type V = ChoiceView;

    closed spec fn view(&self) -> ChoiceView {
        ChoiceView { name: self.name@, choices: self.choices@, index: self.index }
    }
}

impl ChoiceData {
    pub fn name(&self) -> (name: &String)
        ensures
            name@ == self@.name,
    {
        &self.name
    }

    pub fn choices(&self) -> (choices: &Vec<String>)
        ensures
            choices@ == self@.choices,
    {
        &self.choices
    }

    /// The index of what is chosen, to read and to write. Nothing but the
    /// index changes.
    pub fn index(&mut self) -> (index: &mut usize)
        ensures
            *index == old(self)@.index,
            final(self)@ == (ChoiceView { index: *final(index), ..old(self)@ }),
    {
        &mut self.index
    }
}

/// A list of paths, one of which is current.
pub struct PathListData {
    index: usize,
    list: Vec<PathBuf>,
}

/// The mathematical model of a [`PathListData`].
pub struct PathListView {
    pub index: usize,
    pub list: Seq<PathBuf>,
}

impl View for PathListData {
    type V = PathListView;

    closed spec fn view(&self) -> PathListView {
        PathListView { index: self.index, list: self.list@ }
    }
}

impl PathListData {
    pub fn index(&self) -> (index: &usize)
        ensures
            *index == self@.index,
    {
        &self.index
    }

    /// Makes entry `index` the current one. The list stays.
    pub fn set_index(&mut self, index: usize)
        ensures
            final(self)@ == (PathListView { index, ..old(self)@ }),
    {
        self.index = index;
    }

    /// The current entry.
    pub fn current_entry(&self) -> (entry: &PathBuf)
        requires
            self@.index < self@.list.len(),
        ensures
            *entry == self@.list[self@.index as int],
    {
        &self.list[self.index]
    }

    /// Appends `entry` to the list. The index stays.
    pub fn add(&mut self, entry: PathBuf)
        ensures
            final(self)@ == (PathListView { list: old(self)@.list.push(entry), ..old(self)@ }),
    {
        self.list.push(entry);
    }

    pub fn list(&self) -> (list: &Vec<PathBuf>)
        ensures
            list@ == self@.list,
    {
        &self.list
    }
}

/// A property of a node. `F` is the type of the numbers with a fraction.
pub enum NodeProperty<F> {
    Float(NumberData<F>),
    Int(NumberData<i32>),
    Choice(ChoiceData),
    PathList(PathListData),
}

impl<F> NodeProperty<F> {
    pub fn new_float(name: String, min: F, max: F, step: F, value: F) -> (property: Self)
        ensures
            property matches NodeProperty::Float(data) && data@ == (NumberView {
                name: name@,
                min,
                max,
                step,
                value,
            }),
    {
        NodeProperty::Float(NumberData { name, min, max, step, value })
    }

    pub fn new_int(name: String, min: i32, max: i32, step: i32, value: i32) -> (property: Self)
        ensures
            property matches NodeProperty::Int(data) && data@ == (NumberView {
                name: name@,
                min,
                max,
                step,
                value,
            }),
    {
        NodeProperty::Int(NumberData { name, min, max, step, value })
    }

    pub fn new_choice(name: String, choices: Vec<String>, index: usize) -> (property: Self)
        ensures
            property matches NodeProperty::Choice(data) && data@ == (ChoiceView {
                name: name@,
                choices: choices@,
                index,
            }),
    {
        NodeProperty::Choice(ChoiceData { name, choices, index })
    }

    /// An empty list of paths.
    pub fn new_path_list() -> (property: Self)
        ensures
            property matches NodeProperty::PathList(data) && data@ == (PathListView {
                index: 0,
                list: Seq::empty(),
            }),
    {
        NodeProperty::PathList(PathListData { index: 0, list: Vec::new() })
    }
}

} // verus!
