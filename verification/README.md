# pairwise_ranked

Ranking a list of items by asking a person to compare pairs of them, while
asking as few questions as possible.

- `src/order.rs`: orders given as three-way comparisons (total preorders),
  sortedness and rearrangement.
- `src/isort.rs`: merge-insertion sort, selection sort and the binary search
  they use, over an arbitrary comparator closure; proved to rearrange the
  input and to sort it whenever the comparator follows a total preorder.
- `src/pair.rs`: pairs of item indices and the recorded answer for a pair.
- `src/ranking.rs`: turning the answers given so far into an ordering of the
  items (through the `ford-johnson` crate) and finding the next question.
- `src/model.rs`: the ranking session as a state machine: each message
  changes the session and returns what the page should do.
- `app/main.rs`: the web page (yew) around the session.
