//! The tree of elements that a message of the turn protocol is made of.
use vstd::prelude::*;

verus! {

/// An attribute name with the values given for it, in the order given.
pub struct Attribute {
    pub name: String,
    pub values: Vec<String>,
}

/// An element with its name, its text, its attributes and the elements
/// inside it.
pub struct XmlNode {
    pub name: String,
    pub data: String,
    pub attributes: Vec<Attribute>,
    pub children: Vec<XmlNode>,
}

/// The place of the first of `names` from `from` on that is `name`, and the
/// length of `names` if there is none.
pub open spec fn first_named(names: Seq<Seq<char>>, name: Seq<char>, from: int) -> int
    decreases names.len() - from,
{
    if from < 0 || from >= names.len() {
        names.len() as int
    } else if names[from] == name {
        from
    } else {
        first_named(names, name, from + 1)
    }
}

/// The attributes after one more value was given for `name`.
pub open spec fn with_value(
    list: Seq<(Seq<char>, Seq<Seq<char>>)>,
    name: Seq<char>,
    value: Seq<char>,
) -> Seq<(Seq<char>, Seq<Seq<char>>)> {
    let names = Seq::new(list.len(), |i: int| list[i].0);
    let at = first_named(names, name, 0);
    if at < list.len() {
        list.update(at, (list[at].0, list[at].1.push(value)))
    } else {
        list.push((name, Seq::empty().push(value)))
    }
}

impl XmlNode {
    /// The names of the children, in their order.
    pub open spec fn child_names(self) -> Seq<Seq<char>> {
        Seq::new(self.children@.len(), |i: int| self.children@[i].name@)
    }

    /// The first child with the given name.
    pub open spec fn child_named(self, name: Seq<char>) -> Option<XmlNode> {
        let at = first_named(self.child_names(), name, 0);
        if at < self.children@.len() {
            Some(self.children@[at])
        } else {
            None
        }
    }

    /// A node without name, text, attributes or children.
    pub fn new() -> (r: Self)
        ensures
            r.name@ == Seq::<char>::empty(),
            r.data@ == Seq::<char>::empty(),
            r.attributes@ == Seq::<Attribute>::empty(),
            r.children@ == Seq::<XmlNode>::empty(),
    {
        Self { name: String::new(), data: String::new(), attributes: Vec::new(), children: Vec::new() }
    }

    /// The first child with the given name.
    pub fn child(&self, name: &str) -> (r: Option<&XmlNode>)
        ensures
            match r {
                Some(c) => self.child_named(name@) == Some(*c),
                None => self.child_named(name@) is None,
            },
    {
        let wanted = name.to_owned();
        let mut i: usize = 0;
        while i < self.children.len()
            invariant
                i <= self.children.len(),
                wanted@ == name@,
                first_named(self.child_names(), name@, 0) == first_named(
                    self.child_names(),
                    name@,
                    i as int,
                ),
            decreases self.children.len() - i,
        {
            if self.children[i].name == wanted {
                return Some(&self.children[i]);
            }
            i += 1;
        }
        None
    }

    /// The attributes as plain values: each name with its values.
    pub open spec fn attribute_list(self) -> Seq<(Seq<char>, Seq<Seq<char>>)> {
        Seq::new(
            self.attributes@.len(),
            |i: int| (self.attributes@[i].name@, self.attributes@[i].values.deep_view()),
        )
    }

    /// The names of the attributes, in their order.
    pub open spec fn attribute_names(self) -> Seq<Seq<char>> {
        Seq::new(self.attributes@.len(), |i: int| self.attributes@[i].name@)
    }

    /// The values of the first attribute with the given name.
    pub open spec fn values_of(self, name: Seq<char>) -> Option<Seq<Seq<char>>> {
        let at = first_named(self.attribute_names(), name, 0);
        if at < self.attributes@.len() {
            Some(self.attributes@[at].values.deep_view())
        } else {
            None
        }
    }

    /// The first value of the first attribute with the given name.
    pub open spec fn first_value_of(self, name: Seq<char>) -> Option<Seq<char>> {
        match self.values_of(name) {
            Some(values) => if values.len() > 0 {
                Some(values[0])
            } else {
                None
            },
            None => None,
        }
    }

    /// The place of the first attribute with the given name, or the number
    /// of attributes if there is none.
    fn attribute_index(&self, name: &String) -> (at: usize)
        ensures
            at == first_named(self.attribute_names(), name@, 0),
            at <= self.attributes.len(),
    {
        let mut i: usize = 0;
        while i < self.attributes.len()
            invariant
                i <= self.attributes.len(),
                first_named(self.attribute_names(), name@, 0) == first_named(
                    self.attribute_names(),
                    name@,
                    i as int,
                ),
            decreases self.attributes.len() - i,
        {
            if self.attributes[i].name == *name {
                return i;
            }
            i += 1;
        }
        i
    }

    /// The values of the first attribute with the given name.
    pub fn attribute(&self, name: &str) -> (r: Option<&Vec<String>>)
        ensures
            match r {
                Some(values) => self.values_of(name@) == Some(values.deep_view()),
                None => self.values_of(name@) is None,
            },
    {
        let wanted = name.to_owned();
        let at = self.attribute_index(&wanted);
        if at < self.attributes.len() {
            Some(&self.attributes[at].values)
        } else {
            None
        }
    }

    /// The first value of the first attribute with the given name.
    pub fn first_value(&self, name: &str) -> (r: Option<&String>)
        ensures
            match r {
                Some(value) => self.first_value_of(name@) == Some(value@),
                None => self.first_value_of(name@) is None,
            },
    {
        match self.attribute(name) {
            Some(values) => {
                if values.len() > 0 {
                    Some(&values[0])
                } else {
                    None
                }
            },
            None => None,
        }
    }

    /// Gives one more value for the attribute `name`: it joins the values of
    /// the first attribute of that name, and where there is none a new
    /// attribute is added behind the others.
    pub fn add_attribute(&mut self, name: String, value: String)
        ensures
            final(self).name == old(self).name,
            final(self).data == old(self).data,
            final(self).children == old(self).children,
            final(self).attribute_list() == with_value(old(self).attribute_list(), name@, value@),
    {
        let at = self.attribute_index(&name);
        let ghost before = self.attribute_list();
        let ghost names = self.attribute_names();
        proof {
            assert(names =~= Seq::new(before.len(), |i: int| before[i].0));
        }
        if at < self.attributes.len() {
            let mut attribute = self.attributes.remove(at);
            let ghost had = attribute.values.deep_view();
            attribute.values.push(value);
            proof {
                assert(attribute.values.deep_view() =~= had.push(value@));
            }
            self.attributes.insert(at, attribute);
            proof {
                assert(self.attribute_list() =~= with_value(before, name@, value@));
            }
        } else {
            let mut values: Vec<String> = Vec::new();
            values.push(value);
            proof {
                assert(values.deep_view() =~= Seq::<Seq<char>>::empty().push(value@));
            }
            self.attributes.push(Attribute { name, values });
            proof {
                assert(self.attribute_list() =~= with_value(before, name@, value@));
            }
        }
    }
}

/// What the attributes of one element make, taken `n` at a time in their
/// order: each pair of a name and a value is one more value for that name.
pub open spec fn grouped(pairs: Seq<(String, String)>, n: int) -> Seq<(Seq<char>, Seq<Seq<char>>)>
    decreases n,
{
    if n <= 0 {
        Seq::empty()
    } else {
        with_value(grouped(pairs, n - 1), pairs[n - 1].0@, pairs[n - 1].1@)
    }
}

/// The elements that are open while a message is read, the outermost
/// first.
pub struct NodeStack {
    pub nodes: Vec<XmlNode>,
    pub has_received_first: bool,
}

impl NodeStack {
    /// No element is open, and none was seen yet.
    pub fn new() -> (r: Self)
        ensures
            r.nodes@ == Seq::<XmlNode>::empty(),
            !r.has_received_first,
    {
        NodeStack { nodes: Vec::new(), has_received_first: false }
    }

    /// An element opens: a node with its name and attributes, still without
    /// text and children, becomes the innermost open element.
    pub fn start_element(&mut self, name: String, attributes: &Vec<(String, String)>)
        ensures
            final(self).has_received_first,
            final(self).nodes@.len() == old(self).nodes@.len() + 1,
            final(self).nodes@.drop_last() == old(self).nodes@,
            final(self).nodes@.last().name == name,
            final(self).nodes@.last().data@ == Seq::<char>::empty(),
            final(self).nodes@.last().children@ == Seq::<XmlNode>::empty(),
            final(self).nodes@.last().attribute_list() == grouped(
                attributes@,
                attributes@.len() as int,
            ),
    {
        let mut node = XmlNode::new();
        node.name = name;
        proof {
            assert(node.attribute_list() =~= grouped(attributes@, 0));
        }
        let mut i: usize = 0;
        while i < attributes.len()
            invariant
                i <= attributes.len(),
                node.name == name,
                node.data@ == Seq::<char>::empty(),
                node.children@ == Seq::<XmlNode>::empty(),
                node.attribute_list() == grouped(attributes@, i as int),
            decreases attributes.len() - i,
        {
            let key = attributes[i].0.clone();
            let value = attributes[i].1.clone();
            node.add_attribute(key, value);
            i += 1;
        }
        let ghost before = self.nodes@;
        self.nodes.push(node);
        self.has_received_first = true;
        proof {
            assert(self.nodes@.drop_last() =~= before);
        }
    }

    /// Text arrives: it is added to the text of the innermost open element.
    pub fn characters(&mut self, content: &str)
        requires
            old(self).nodes@.len() > 0,
        ensures
            final(self).has_received_first == old(self).has_received_first,
            final(self).nodes@.len() == old(self).nodes@.len(),
            final(self).nodes@.drop_last() == old(self).nodes@.drop_last(),
            final(self).nodes@.last().data@ == old(self).nodes@.last().data@ + content@,
            final(self).nodes@.last().name == old(self).nodes@.last().name,
            final(self).nodes@.last().attributes == old(self).nodes@.last().attributes,
            final(self).nodes@.last().children == old(self).nodes@.last().children,
    {
        let ghost before = self.nodes@;
        let mut node = self.nodes.pop().unwrap();
        node.data.append(content);
        self.nodes.push(node);
        proof {
            assert(self.nodes@.drop_last() =~= before.drop_last());
        }
    }

    /// An element closes. Where more than two elements are open the
    /// innermost becomes the last child of the one around it. Else, once an
    /// element was seen, the innermost open element is complete: it is taken
    /// off and handed out.
    pub fn end_element(&mut self) -> (r: Option<XmlNode>)
        requires
            old(self).has_received_first ==> old(self).nodes@.len() > 0,
        ensures
            final(self).has_received_first == old(self).has_received_first,
            old(self).nodes@.len() > 2 ==> {
                let n = old(self).nodes@.len() as int;
                &&& r is None
                &&& final(self).nodes@.len() == n - 1
                &&& final(self).nodes@.drop_last() == old(self).nodes@.take(n - 2)
                &&& final(self).nodes@.last().name == old(self).nodes@[n - 2].name
                &&& final(self).nodes@.last().data == old(self).nodes@[n - 2].data
                &&& final(self).nodes@.last().attributes == old(self).nodes@[n - 2].attributes
                &&& final(self).nodes@.last().children@ == old(self).nodes@[n - 2].children@.push(
                    old(self).nodes@[n - 1],
                )
            },
            old(self).nodes@.len() <= 2 && old(self).has_received_first ==> r == Some(
                old(self).nodes@.last(),
            ) && final(self).nodes@ == old(self).nodes@.drop_last(),
            old(self).nodes@.len() <= 2 && !old(self).has_received_first ==> r is None
                && final(self).nodes@ == old(self).nodes@,
    {
        let ghost before = self.nodes@;
        if self.nodes.len() > 2 {
            let child = self.nodes.pop().unwrap();
            let mut node = self.nodes.pop().unwrap();
            node.children.push(child);
            self.nodes.push(node);
            proof {
                assert(self.nodes@.drop_last() =~= before.take(before.len() - 2));
            }
            None
        } else if self.has_received_first {
            self.nodes.pop()
        } else {
            None
        }
    }
}

} // verus!
