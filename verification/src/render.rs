//! Notification rendering: a task list becomes a structured, comparable
//! message body. An empty list renders the fixed "no tasks" body with the
//! calm colour; a non-empty list renders the "tasks found" body with the
//! warning colour and one field per task, in input order.

use vstd::prelude::*;

use crate::model::{Field, FieldView, Task};

verus! {

/// The colour marker of a rendering: warning red when tasks were found, calm
/// dark green when none were.
#[derive(Clone, Copy, PartialEq, Eq, Structural, Debug)]
pub enum Color {
    Red,
    DarkGreen,
}

/// The structured body of a notification message: what is compared when a
/// previously posted reminder is reconciled against fresh task data.
#[derive(Debug)]
pub struct Rendering {
    pub title: String,
    pub description: String,
    pub fields: Vec<Field>,
    pub color: Color,
}

/// Mathematical image of a `Rendering`; renderings are compared through it,
/// structurally.
pub ghost struct RenderingView {
    pub title: Seq<char>,
    pub description: Seq<char>,
    pub fields: Seq<FieldView>,
    pub color: Color,
}

/// The views of a sequence of fields, elementwise.
pub open spec fn fields_view(fields: Seq<Field>) -> Seq<FieldView> {
    fields.map_values(|f: Field| f@)
}

impl View for Rendering {
    type V = RenderingView;

    open spec fn view(&self) -> RenderingView {
        RenderingView {
            title: self.title@,
            description: self.description@,
            fields: fields_view(self.fields@),
            color: self.color,
        }
    }
}

/// One display field per task, in task order.
pub open spec fn task_fields(tasks: Seq<Task>) -> Seq<FieldView> {
    tasks.map_values(|t: Task| t.field@)
}

/// The fixed rendering announced when no task is due.
pub open spec fn no_tasks_rendering() -> RenderingView {
    RenderingView {
        title: "タスク通知"@,
        description: "明日のタスクはありません:tada:"@,
        fields: Seq::empty(),
        color: Color::DarkGreen,
    }
}

/// What `render` returns for a given task list.
pub open spec fn render_spec(tasks: Seq<Task>) -> RenderingView {
    if tasks.len() == 0 {
        no_tasks_rendering()
    } else {
        RenderingView {
            title: "タスク通知"@,
            description: "明日のタスクをお知らせします！"@,
            fields: task_fields(tasks),
            color: Color::Red,
        }
    }
}

/// Renders a task list into a notification body. Total and deterministic: an
/// empty list always gives the fixed "no tasks" body, a non-empty list the
/// "tasks found" body with one field per task, in input order.
pub fn render(tasks: &Vec<Task>) -> (r: Rendering)
    ensures
        r@ == render_spec(tasks@),
{
    let mut fields: Vec<Field> = Vec::new();
    let mut i: usize = 0;
    while i < tasks.len()
        invariant
            i <= tasks.len(),
            fields@.len() == i,
            forall|j: int| 0 <= j < i ==> (#[trigger] fields@[j])@ == tasks@[j].field@,
        decreases tasks.len() - i,
    {
        fields.push(tasks[i].to_field());
        i += 1;
    }
    let r = if !fields.is_empty() {
        Rendering {
            title: "タスク通知".to_owned(),
            description: "明日のタスクをお知らせします！".to_owned(),
            fields,
            color: Color::Red,
        }
    } else {
        Rendering {
            title: "タスク通知".to_owned(),
            description: "明日のタスクはありません:tada:".to_owned(),
            fields,
            color: Color::DarkGreen,
        }
    };
    proof {
        if tasks@.len() == 0 {
            assert(fields_view(r.fields@) =~= Seq::<FieldView>::empty());
        } else {
            assert(fields_view(r.fields@) =~= task_fields(tasks@));
        }
    }
    r
}

/// Structural equality of renderings: title, description, fields and colour
/// all equal. This is the comparison reconciliation uses.
pub fn rendering_eq(a: &Rendering, b: &Rendering) -> (r: bool)
    ensures
        r == (a@ == b@),
{
    if !(a.title == b.title) {
        return false;
    }
    if !(a.description == b.description) {
        return false;
    }
    if !(a.color == b.color) {
        return false;
    }
    if a.fields.len() != b.fields.len() {
        proof {
            assert(a@.fields.len() == a.fields@.len());
            assert(b@.fields.len() == b.fields@.len());
        }
        return false;
    }
    let mut i: usize = 0;
    while i < a.fields.len()
        invariant
            i <= a.fields.len(),
            a.fields@.len() == b.fields@.len(),
            forall|j: int| 0 <= j < i ==> (#[trigger] a.fields@[j])@ == b.fields@[j]@,
        decreases a.fields.len() - i,
    {
        let fa = &a.fields[i];
        let fb = &b.fields[i];
        if !(fa.name == fb.name) || !(fa.value == fb.value) || fa.inline != fb.inline {
            proof {
                assert(fields_view(a.fields@)[i as int] != fields_view(b.fields@)[i as int]);
            }
            return false;
        }
        i += 1;
    }
    proof {
        assert(fields_view(a.fields@) =~= fields_view(b.fields@));
    }
    true
}

} // verus!
