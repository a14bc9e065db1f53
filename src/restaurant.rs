//! A restaurant: its waiting list, its breakfasts and its appetizers.
use vstd::prelude::*;

verus! {

/// Puts a party on the waiting list; the list keeps no state yet.
pub fn add_to_waitlist() {
}

/// The appetizers on offer.
#[derive(Debug, Clone, Copy, PartialEq, Eq, Structural)]
pub enum Appetizer {
    Soup,
    Salad,
}

/// A breakfast: the toast is the guest's choice, the fruit the season's.
pub struct Breakfast {
    pub toast: String,
    seasonal_fruit: String,
}

impl Breakfast {
    /// The toast chosen.
    pub closed spec fn spec_toast(&self) -> Seq<char> {
        self.toast@
    }

    /// The fruit served with this breakfast.
    pub closed spec fn fruit(&self) -> Seq<char> {
        self.seasonal_fruit@
    }

    /// A summer breakfast with `toast`; its fruit is peaches.
    pub fn summer(toast: &str) -> (r: Breakfast)
        ensures
            r.spec_toast() == toast@,
            r.fruit() == "peaches"@,
    {
        Breakfast { toast: String::from_str(toast), seasonal_fruit: String::from_str("peaches") }
    }

    /// The fruit served with this breakfast.
    pub fn seasonal_fruit(&self) -> (r: &str)
        ensures
            r@ == self.fruit(),
    {
        self.seasonal_fruit.as_str()
    }
}

/// Seats a party, orders a summer breakfast with rye toast, changes it to
/// wheat and returns the order as it is spoken.
pub fn eat_at_restaurant() -> (r: String)
    ensures
        r@ == "I would like Wheat toast please"@,
{
    add_to_waitlist();
    let mut meal = Breakfast::summer("Rye");
    meal.toast = String::from_str("Wheat");
    let mut order = String::from_str("I would like ");
    order.append(meal.toast.as_str());
    order.append(" toast please");
    proof {
        reveal_strlit("I would like ");
        reveal_strlit("Wheat");
        reveal_strlit(" toast please");
        reveal_strlit("I would like Wheat toast please");
    }
    assert(order@ =~= "I would like Wheat toast please"@);
    order
}

} // verus!
