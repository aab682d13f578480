//! Building views from widgets.

use vstd::prelude::*;
use vstd::view::View as _;
use crate::view::View;

verus! {

/// Converts a widget or builder into a concrete `View`.
pub trait IntoView {
    fn into_view(self) -> View;
}

impl IntoView for View {
    fn into_view(self) -> (r: View)
        ensures
            r == self,
    {
        self
    }
}

/// Container widgets that host child views.
pub trait WithChildren: Sized {
    fn with_children(self, children: Vec<View>) -> View;
}

impl<T: WithChildren> IntoView for T {
    fn into_view(self) -> (r: View)
        ensures
            exists|children: Vec<View>|
                children@.len() == 0 && #[trigger] call_ensures(T::with_children, (self, children), r),
    {
        let children: Vec<View> = Vec::new();
        let ghost g = children;
        let r = self.with_children(children);
        assert(call_ensures(T::with_children, (self, g), r));
        r
    }
}

} // verus!
